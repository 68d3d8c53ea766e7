//! 16-bit PCM as the bytes AVS expects: each sample little-endian, two bytes.
use vstd::prelude::*;

verus! {

/// The sample as an unsigned 16-bit pattern (two's complement).
pub open spec fn sample_bits(s: i16) -> int {
    if s < 0 {
        s + 65536
    } else {
        s as int
    }
}

/// The low byte of the sample.
pub open spec fn low_byte(s: i16) -> u8 {
    (sample_bits(s) % 256) as u8
}

/// The high byte of the sample.
pub open spec fn high_byte(s: i16) -> u8 {
    (sample_bits(s) / 256) as u8
}

/// The samples laid out little-endian: low byte, then high byte, sample by
/// sample.
pub open spec fn le_bytes(samples: Seq<i16>) -> Seq<u8> {
    Seq::new(
        2 * samples.len(),
        |k: int|
            if k % 2 == 0 {
                low_byte(samples[k / 2])
            } else {
                high_byte(samples[k / 2])
            },
    )
}

/// The sample that two little-endian bytes encode.
pub open spec fn sample_from_le(lo: u8, hi: u8) -> int {
    let v = lo + 256 * hi;
    if v >= 32768 {
        v - 65536
    } else {
        v
    }
}

/// Every sample is read back from its two bytes: the byte layout loses
/// nothing, and each sample takes exactly two bytes.
pub proof fn lemma_le_bytes_roundtrip(samples: Seq<i16>, i: int)
    requires
        0 <= i < samples.len(),
    ensures
        le_bytes(samples).len() == 2 * samples.len(),
        sample_from_le(le_bytes(samples)[2 * i], le_bytes(samples)[2 * i + 1]) == samples[i],
{
    let b = le_bytes(samples);
    assert((2 * i) % 2 == 0 && (2 * i) / 2 == i);
    assert((2 * i + 1) % 2 == 1 && (2 * i + 1) / 2 == i);
    assert(b[2 * i] == low_byte(samples[i]));
    assert(b[2 * i + 1] == high_byte(samples[i]));
}

/// Signed 16-bit samples as little-endian bytes.
pub fn i16_to_le_bytes(samples: &[i16]) -> (r: Vec<u8>)
    ensures
        r@ == le_bytes(samples@),
{
    let mut out: Vec<u8> = Vec::new();
    let mut i: usize = 0;
    while i < samples.len()
        invariant
            i <= samples.len(),
            out@.len() == 2 * i,
            forall|k: int| 0 <= k < 2 * i ==> #[trigger] out@[k] == le_bytes(samples@)[k],
        decreases samples.len() - i,
    {
        let s = samples[i];
        let bits: u32 = if s < 0 {
            (s as i32 + 65536) as u32
        } else {
            s as u32
        };
        let lo = (bits % 256) as u8;
        let hi = (bits / 256) as u8;
        assert(lo == low_byte(s));
        assert(hi == high_byte(s));
        out.push(lo);
        out.push(hi);
        proof {
            let k0 = 2 * i as int;
            assert(k0 % 2 == 0 && k0 / 2 == i);
            assert((k0 + 1) % 2 == 1 && (k0 + 1) / 2 == i);
        }
        i += 1;
    }
    assert(out@ =~= le_bytes(samples@));
    out
}

} // verus!
