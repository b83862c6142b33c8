use vstd::arithmetic::power::pow;
use vstd::arithmetic::power2::{lemma2_to64, lemma_pow2, pow2};
use vstd::prelude::*;

verus! {

/// A high pulse longer than this many microseconds is a `1` bit.
pub const BIT_ONE_THRESHOLD_US: u64 = 48;

/// A high pulse that lasts this many microseconds or more is a timeout.
pub const PULSE_CAP_US: u64 = 100;

/// Number of bytes in one frame sent by the sensor.
pub const FRAME_LEN: usize = 5;

/// Number of bits in one frame sent by the sensor.
pub const FRAME_BITS: usize = 40;

/// What a failed read reports.
#[derive(Debug, Clone, Copy, PartialEq, Eq, Structural)]
pub enum DhtError {
    /// A level transition did not come within its phase's bound.
    Timeout,
    /// The four data bytes do not sum to the checksum byte.
    ChecksumMismatch,
}

/// A validated reading: integer parts of temperature (degrees C) and relative humidity (%).
#[derive(Debug, Clone, Copy, PartialEq, Eq, Structural)]
pub struct DhtReading {
    pub temperature: u8,
    pub humidity: u8,
}

/// The checksum that the four data bytes of a frame call for.
pub open spec fn checksum_spec(f: Seq<u8>) -> int {
    (f[0] + f[1] + f[2] + f[3]) % 256
}

/// The outcome of decoding a complete frame
/// `[humidity_int, humidity_frac, temperature_int, temperature_frac, checksum]`.
pub open spec fn decode_spec(f: Seq<u8>) -> Result<DhtReading, DhtError> {
    if checksum_spec(f) == f[4] as int {
        Ok(DhtReading { temperature: f[2], humidity: f[0] })
    } else {
        Err(DhtError::ChecksumMismatch)
    }
}

/// How a high pulse of `d` microseconds decodes.
pub open spec fn pulse_spec(d: u64) -> Result<bool, DhtError> {
    if d >= PULSE_CAP_US {
        Err(DhtError::Timeout)
    } else {
        Ok(d > BIT_ONE_THRESHOLD_US)
    }
}

/// The value of a sequence of bits read most significant first.
pub open spec fn msb_value(bits: Seq<bool>) -> nat
    decreases bits.len(),
{
    if bits.len() == 0 {
        0
    } else {
        2 * msb_value(bits.drop_last()) + if bits.last() {
            1nat
        } else {
            0nat
        }
    }
}

/// Byte `j` of the frame after `bits` have been received: the bits that fall in
/// that byte, most significant first (a byte still being filled holds only those
/// received so far).
pub open spec fn byte_of_bits(bits: Seq<bool>, j: int) -> u8 {
    let lo = if 8 * j < bits.len() {
        8 * j
    } else {
        bits.len() as int
    };
    let hi = if 8 * j + 8 < bits.len() {
        8 * j + 8
    } else {
        bits.len() as int
    };
    msb_value(bits.subrange(lo, hi)) as u8
}

/// The frame buffer after `bits` have been received.
pub open spec fn frame_of_bits(bits: Seq<bool>) -> Seq<u8> {
    Seq::new(FRAME_LEN as nat, |j: int| byte_of_bits(bits, j))
}

/// A fresh frame buffer is all zeros.
pub proof fn lemma_frame_of_no_bits()
    ensures
        frame_of_bits(Seq::empty()) == seq![0u8, 0u8, 0u8, 0u8, 0u8],
{
    assert forall|j: int| 0 <= j < 5 implies #[trigger] byte_of_bits(Seq::empty(), j) == 0u8 by {
        assert(Seq::<bool>::empty().subrange(0, 0) =~= Seq::<bool>::empty());
    }
    assert(frame_of_bits(Seq::empty()) =~= seq![0u8, 0u8, 0u8, 0u8, 0u8]);
}

/// A sequence of `n` bits has a value below `2^n`.
pub proof fn lemma_msb_value_bound(bits: Seq<bool>)
    ensures
        msb_value(bits) < pow2(bits.len()),
    decreases bits.len(),
{
    reveal(pow);
    if bits.len() > 0 {
        let n = (bits.len() - 1) as nat;
        lemma_msb_value_bound(bits.drop_last());
        lemma_pow2(n);
        lemma_pow2(bits.len());
        assert(pow(2, bits.len()) == 2 * pow(2, n));
    } else {
        lemma_pow2(0);
        assert(pow(2, 0) == 1);
    }
}

/// Receiving one more bit shifts it into the byte it falls in and leaves the
/// other bytes as they were.
pub proof fn lemma_frame_push(bits: Seq<bool>, b: bool)
    requires
        bits.len() < FRAME_BITS,
    ensures
        ({
            let j = bits.len() / 8;
            let old_byte = frame_of_bits(bits)[j as int];
            &&& old_byte < 128
            &&& frame_of_bits(bits.push(b)) == frame_of_bits(bits).update(
                j as int,
                (2 * old_byte + if b {
                    1int
                } else {
                    0int
                }) as u8,
            )
        }),
{
    let n = bits.len() as int;
    let j = n / 8;
    let nb = bits.push(b);
    let part = bits.subrange(8 * j, n);
    lemma2_to64();
    lemma_msb_value_bound(part);
    lemma_msb_value_bound(nb.subrange(8 * j, n + 1));
    assert(nb.subrange(8 * j, n + 1).drop_last() =~= part);
    assert forall|k: int| 0 <= k < 5 && k != j implies #[trigger] byte_of_bits(nb, k)
        == byte_of_bits(bits, k) by {
        if k < j {
            assert(nb.subrange(8 * k, 8 * k + 8) =~= bits.subrange(8 * k, 8 * k + 8));
        } else {
            assert(nb.subrange(n + 1, n + 1) =~= bits.subrange(n, n));
        }
    }
    assert(frame_of_bits(nb) =~= frame_of_bits(bits).update(
        j,
        (2 * frame_of_bits(bits)[j] + if b {
            1int
        } else {
            0int
        }) as u8,
    ));
}

/// A frame whose fifth byte is the sum of the four data bytes modulo 256
/// decodes to the reading with humidity from byte 0 and temperature from
/// byte 2; flipping any single bit of that fifth byte makes the same frame a
/// checksum mismatch.
pub proof fn lemma_checksum_round_trip(b0: u8, b1: u8, b2: u8, b3: u8, k: u8)
    requires
        k < 8,
    ensures
        ({
            let c = ((b0 + b1 + b2 + b3) % 256) as u8;
            &&& decode_spec(seq![b0, b1, b2, b3, c]) == Ok::<DhtReading, DhtError>(
                DhtReading { temperature: b2, humidity: b0 },
            )
            &&& decode_spec(seq![b0, b1, b2, b3, c ^ (1u8 << k)]) == Err::<DhtReading, DhtError>(
                DhtError::ChecksumMismatch,
            )
        }),
{
    let c = ((b0 + b1 + b2 + b3) % 256) as u8;
    assert(c ^ (1u8 << k) != c) by (bit_vector)
        requires
            k < 8,
    ;
}

/// The checksum byte that the four data bytes of `frame` call for: their sum
/// modulo 256.
pub fn checksum(frame: &[u8; 5]) -> (r: u8)
    ensures
        r as int == checksum_spec(frame@),
{
    let sum: u16 = frame[0] as u16 + frame[1] as u16 + frame[2] as u16 + frame[3] as u16;
    assert(sum & 0xff == sum % 256) by (bit_vector);
    (sum & 0xff) as u8
}

/// Checks a complete frame and, when its checksum holds, takes the integer
/// humidity from byte 0 and the integer temperature from byte 2.
pub fn decode_frame(frame: &[u8; 5]) -> (r: Result<DhtReading, DhtError>)
    ensures
        r == decode_spec(frame@),
{
    if checksum(frame) != frame[4] {
        Err(DhtError::ChecksumMismatch)
    } else {
        Ok(DhtReading { temperature: frame[2], humidity: frame[0] })
    }
}

/// Classifies a high pulse by its duration: up to 48 us is `0`, longer is `1`,
/// and 100 us or more means the line is stuck (a timeout).
pub fn classify_pulse(duration_us: u64) -> (r: Result<bool, DhtError>)
    ensures
        r == pulse_spec(duration_us),
{
    if duration_us >= PULSE_CAP_US {
        Err(DhtError::Timeout)
    } else {
        Ok(duration_us > BIT_ONE_THRESHOLD_US)
    }
}

} // verus!
