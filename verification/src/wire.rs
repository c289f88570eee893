//! The wire codec: forty bytes, five little-endian fields of eight bytes each,
//! in a fixed order and without padding.

use vstd::prelude::*;

verus! {

/// Length in bytes of one packet on the wire.
pub const PACKET_LEN: usize = 40;

/// One sensor transmission in its wire shape.
///
/// The two measurements are IEEE 754 binary64 numbers. They are held as their
/// bit patterns, which is what the wire carries and what is stored: the codec
/// never interprets them, so every pattern, NaN payloads included, survives
/// a round trip unchanged.
#[derive(Clone, Copy, Debug, PartialEq, Eq, Structural)]
pub struct TelemetryPacket {
    /// Bit pattern of the pH measurement.
    pub ph: u64,
    /// Unix seconds at which the pH measurement was taken.
    pub ph_timestamp: i64,
    /// Bit pattern of the TDS measurement.
    pub tds: u64,
    /// Unix seconds at which the TDS measurement was taken.
    pub tds_timestamp: i64,
    /// Unix seconds at which the packet, complete with both measurements, was sent.
    pub packet_timestamp: i64,
}

/// Why a buffer is not a packet.
#[derive(Clone, Copy, Debug, PartialEq, Eq, Structural)]
pub enum DecodeError {
    /// The buffer does not have the length of a packet.
    LengthMismatch { expected: usize, actual: usize },
}

/// The number that eight bytes spell in base 256, least significant byte first.
#[verifier::opaque]
pub open spec fn le_value(b: Seq<u8>) -> int
    recommends
        b.len() == 8,
{
    b[0] + 0x100 * b[1] + 0x1_0000 * b[2] + 0x100_0000 * b[3] + 0x1_0000_0000 * b[4]
        + 0x100_0000_0000 * b[5] + 0x1_0000_0000_0000 * b[6] + 0x100_0000_0000_0000 * b[7]
}

/// The eight base-256 digits of `x`, least significant first.
#[verifier::opaque]
pub open spec fn le_digits(x: int) -> Seq<u8>
    recommends
        0 <= x < 0x1_0000_0000_0000_0000,
{
    seq![
        (x % 0x100) as u8,
        (x / 0x100 % 0x100) as u8,
        (x / 0x1_0000 % 0x100) as u8,
        (x / 0x100_0000 % 0x100) as u8,
        (x / 0x1_0000_0000 % 0x100) as u8,
        (x / 0x100_0000_0000 % 0x100) as u8,
        (x / 0x1_0000_0000_0000 % 0x100) as u8,
        (x / 0x100_0000_0000_0000 % 0x100) as u8,
    ]
}

/// The signed number that a 64-bit pattern stands for in two's complement.
pub open spec fn signed(u: int) -> int
    recommends
        0 <= u < 0x1_0000_0000_0000_0000,
{
    if u < 0x8000_0000_0000_0000 {
        u
    } else {
        u - 0x1_0000_0000_0000_0000
    }
}

/// The 64-bit pattern of a signed number in two's complement.
pub open spec fn unsigned(i: int) -> int
    recommends
        -0x8000_0000_0000_0000 <= i < 0x8000_0000_0000_0000,
{
    if i >= 0 {
        i
    } else {
        i + 0x1_0000_0000_0000_0000
    }
}

/// The packet that forty bytes spell.
pub open spec fn decoding(b: Seq<u8>) -> TelemetryPacket
    recommends
        b.len() == 40,
{
    TelemetryPacket {
        ph: le_value(b.subrange(0, 8)) as u64,
        ph_timestamp: signed(le_value(b.subrange(8, 16))) as i64,
        tds: le_value(b.subrange(16, 24)) as u64,
        tds_timestamp: signed(le_value(b.subrange(24, 32))) as i64,
        packet_timestamp: signed(le_value(b.subrange(32, 40))) as i64,
    }
}

/// The forty bytes that spell a packet.
pub open spec fn encoding(p: TelemetryPacket) -> Seq<u8> {
    le_digits(p.ph as int) + le_digits(unsigned(p.ph_timestamp as int)) + le_digits(p.tds as int)
        + le_digits(unsigned(p.tds_timestamp as int)) + le_digits(
        unsigned(p.packet_timestamp as int),
    )
}

/// Eight digits spell the number they were taken from.
pub proof fn lemma_value_of_digits(x: int)
    requires
        0 <= x < 0x1_0000_0000_0000_0000,
    ensures
        le_digits(x).len() == 8,
        le_value(le_digits(x)) == x,
{
    reveal(le_value);
    reveal(le_digits);
    let u = x as u64;
    assert(u == (u % 0x100) + 0x100 * (u / 0x100 % 0x100) + 0x1_0000 * (u / 0x1_0000 % 0x100)
        + 0x100_0000 * (u / 0x100_0000 % 0x100) + 0x1_0000_0000 * (u / 0x1_0000_0000 % 0x100)
        + 0x100_0000_0000 * (u / 0x100_0000_0000 % 0x100) + 0x1_0000_0000_0000 * (u
        / 0x1_0000_0000_0000 % 0x100) + 0x100_0000_0000_0000 * (u / 0x100_0000_0000_0000 % 0x100))
        by (bit_vector);
}

/// The digits of the number that eight bytes spell are those bytes.
pub proof fn lemma_digits_of_value(b: Seq<u8>)
    requires
        b.len() == 8,
    ensures
        0 <= le_value(b) < 0x1_0000_0000_0000_0000,
        le_digits(le_value(b)) == b,
{
    reveal(le_value);
    reveal(le_digits);
    let (b0, b1, b2, b3, b4, b5, b6, b7) = (b[0], b[1], b[2], b[3], b[4], b[5], b[6], b[7]);
    let v = le_value(b) as u64;
    assert(v == b0 + 0x100 * b1 + 0x1_0000 * b2 + 0x100_0000 * b3 + 0x1_0000_0000 * b4
        + 0x100_0000_0000 * b5 + 0x1_0000_0000_0000 * b6 + 0x100_0000_0000_0000 * b7);
    assert(v % 0x100 == b0 && v / 0x100 % 0x100 == b1 && v / 0x1_0000 % 0x100 == b2 && v
        / 0x100_0000 % 0x100 == b3 && v / 0x1_0000_0000 % 0x100 == b4 && v / 0x100_0000_0000
        % 0x100 == b5 && v / 0x1_0000_0000_0000 % 0x100 == b6 && v / 0x100_0000_0000_0000 % 0x100
        == b7) by (bit_vector)
        requires
            v == b0 + 0x100 * b1 + 0x1_0000 * b2 + 0x100_0000 * b3 + 0x1_0000_0000 * b4
                + 0x100_0000_0000 * b5 + 0x1_0000_0000_0000 * b6 + 0x100_0000_0000_0000 * b7,
    ;
    assert(le_digits(le_value(b)) =~= b);
}

/// Reads the eight bytes that start at `at` as one unsigned number.
fn read_u64_le(bytes: &[u8], at: usize) -> (r: u64)
    requires
        at + 8 <= bytes@.len(),
    ensures
        r == le_value(bytes@.subrange(at as int, at + 8)),
{
    let b0: u64 = bytes[at] as u64;
    let b1: u64 = bytes[at + 1] as u64;
    let b2: u64 = bytes[at + 2] as u64;
    let b3: u64 = bytes[at + 3] as u64;
    let b4: u64 = bytes[at + 4] as u64;
    let b5: u64 = bytes[at + 5] as u64;
    let b6: u64 = bytes[at + 6] as u64;
    let b7: u64 = bytes[at + 7] as u64;
    proof {
        reveal(le_value);
    }
    b0 + 0x100 * b1 + 0x1_0000 * b2 + 0x100_0000 * b3 + 0x1_0000_0000 * b4 + 0x100_0000_0000 * b5
        + 0x1_0000_0000_0000 * b6 + 0x100_0000_0000_0000 * b7
}

/// Reads the eight bytes that start at `at` as one signed number.
fn read_i64_le(bytes: &[u8], at: usize) -> (r: i64)
    requires
        at + 8 <= bytes@.len(),
    ensures
        r == signed(le_value(bytes@.subrange(at as int, at + 8))),
{
    let u: u64 = read_u64_le(bytes, at);
    if u < 0x8000_0000_0000_0000 {
        u as i64
    } else {
        let low: i64 = (u - 0x8000_0000_0000_0000) as i64;
        low + i64::MIN
    }
}

/// Appends the eight digits of `x`.
fn write_u64_le(out: &mut Vec<u8>, x: u64)
    ensures
        final(out)@ == old(out)@ + le_digits(x as int),
{
    out.push((x % 0x100) as u8);
    out.push((x / 0x100 % 0x100) as u8);
    out.push((x / 0x1_0000 % 0x100) as u8);
    out.push((x / 0x100_0000 % 0x100) as u8);
    out.push((x / 0x1_0000_0000 % 0x100) as u8);
    out.push((x / 0x100_0000_0000 % 0x100) as u8);
    out.push((x / 0x1_0000_0000_0000 % 0x100) as u8);
    out.push((x / 0x100_0000_0000_0000 % 0x100) as u8);
    proof {
        reveal(le_digits);
    }
    assert(out@ =~= old(out)@ + le_digits(x as int));
}

/// Appends the eight digits of the two's complement pattern of `x`.
fn write_i64_le(out: &mut Vec<u8>, x: i64)
    ensures
        final(out)@ == old(out)@ + le_digits(unsigned(x as int)),
{
    let u: u64 = if x >= 0 {
        x as u64
    } else {
        let low: u64 = (x - i64::MIN) as u64;
        low + 0x8000_0000_0000_0000
    };
    write_u64_le(out, u);
}

/// Decodes one packet from a buffer.
///
/// The length is tested before any byte is read: a buffer of any length but
/// forty is rejected whole, never read past its end and never cut short.
pub fn decode(bytes: &[u8]) -> (r: Result<TelemetryPacket, DecodeError>)
    ensures
        bytes@.len() == 40 ==> r == Ok::<TelemetryPacket, DecodeError>(decoding(bytes@)),
        bytes@.len() == 40 ==> encoding(decoding(bytes@)) == bytes@,
        bytes@.len() != 40 ==> r == Err::<TelemetryPacket, DecodeError>(
            DecodeError::LengthMismatch { expected: 40, actual: bytes@.len() as usize },
        ),
{
    if bytes.len() != PACKET_LEN {
        return Err(DecodeError::LengthMismatch { expected: PACKET_LEN, actual: bytes.len() });
    }
    proof {
        lemma_encode_decode(bytes@);
    }
    let ph: u64 = read_u64_le(bytes, 0);
    let ph_timestamp: i64 = read_i64_le(bytes, 8);
    let tds: u64 = read_u64_le(bytes, 16);
    let tds_timestamp: i64 = read_i64_le(bytes, 24);
    let packet_timestamp: i64 = read_i64_le(bytes, 32);
    Ok(TelemetryPacket { ph, ph_timestamp, tds, tds_timestamp, packet_timestamp })
}

/// Encodes one packet: the exact inverse of [`decode`].
pub fn encode(packet: &TelemetryPacket) -> (r: Vec<u8>)
    ensures
        r@ == encoding(*packet),
        r@.len() == 40,
        decoding(r@) == *packet,
{
    let mut out: Vec<u8> = Vec::new();
    write_u64_le(&mut out, packet.ph);
    write_i64_le(&mut out, packet.ph_timestamp);
    write_u64_le(&mut out, packet.tds);
    write_i64_le(&mut out, packet.tds_timestamp);
    write_i64_le(&mut out, packet.packet_timestamp);
    proof {
        lemma_decode_encode(*packet);
    }
    assert(out@ =~= encoding(*packet));
    out
}

/// Decoding undoes encoding: every packet comes back from its forty bytes.
pub proof fn lemma_decode_encode(p: TelemetryPacket)
    ensures
        encoding(p).len() == 40,
        decoding(encoding(p)) == p,
{
    let b = encoding(p);
    let f0 = le_digits(p.ph as int);
    let f1 = le_digits(unsigned(p.ph_timestamp as int));
    let f2 = le_digits(p.tds as int);
    let f3 = le_digits(unsigned(p.tds_timestamp as int));
    let f4 = le_digits(unsigned(p.packet_timestamp as int));
    lemma_value_of_digits(p.ph as int);
    lemma_value_of_digits(unsigned(p.ph_timestamp as int));
    lemma_value_of_digits(p.tds as int);
    lemma_value_of_digits(unsigned(p.tds_timestamp as int));
    lemma_value_of_digits(unsigned(p.packet_timestamp as int));
    assert(b.subrange(0, 8) =~= f0);
    assert(b.subrange(8, 16) =~= f1);
    assert(b.subrange(16, 24) =~= f2);
    assert(b.subrange(24, 32) =~= f3);
    assert(b.subrange(32, 40) =~= f4);
}

/// Encoding undoes decoding: every buffer of forty bytes comes back from its packet.
pub proof fn lemma_encode_decode(b: Seq<u8>)
    requires
        b.len() == 40,
    ensures
        encoding(decoding(b)) == b,
{
    lemma_digits_of_value(b.subrange(0, 8));
    lemma_digits_of_value(b.subrange(8, 16));
    lemma_digits_of_value(b.subrange(16, 24));
    lemma_digits_of_value(b.subrange(24, 32));
    lemma_digits_of_value(b.subrange(32, 40));
    assert(encoding(decoding(b)) =~= b);
}

} // verus!
