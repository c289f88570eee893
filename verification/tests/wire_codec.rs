use water_telemetry::wire::{decode, encode, DecodeError, TelemetryPacket, PACKET_LEN};

fn sample_packet() -> TelemetryPacket {
    TelemetryPacket {
        ph: 7.2f64.to_bits(),
        ph_timestamp: 1_700_000_000,
        tds: 650.0f64.to_bits(),
        tds_timestamp: 1_700_000_000,
        packet_timestamp: 1_700_000_005,
    }
}

fn sample_buffer() -> Vec<u8> {
    let mut buffer = Vec::new();
    buffer.extend_from_slice(&7.2f64.to_le_bytes());
    buffer.extend_from_slice(&1_700_000_000i64.to_le_bytes());
    buffer.extend_from_slice(&650.0f64.to_le_bytes());
    buffer.extend_from_slice(&1_700_000_000i64.to_le_bytes());
    buffer.extend_from_slice(&1_700_000_005i64.to_le_bytes());
    buffer
}

#[test]
fn packet_length_is_forty() {
    assert_eq!(PACKET_LEN, 40);
    assert_eq!(encode(&sample_packet()).len(), 40);
}

#[test]
fn decode_reads_five_little_endian_fields() {
    let packet = decode(&sample_buffer()).unwrap();
    assert_eq!(packet, sample_packet());
    assert_eq!(f64::from_bits(packet.ph), 7.2);
    assert_eq!(f64::from_bits(packet.tds), 650.0);
    assert_eq!(packet.ph_timestamp, 1_700_000_000);
    assert_eq!(packet.tds_timestamp, 1_700_000_000);
    assert_eq!(packet.packet_timestamp, 1_700_000_005);
}

#[test]
fn encode_lays_out_exact_bytes() {
    let bytes = encode(&sample_packet());
    let expected: [u8; 40] = [
        0xcd, 0xcc, 0xcc, 0xcc, 0xcc, 0xcc, 0x1c, 0x40, // 7.2
        0x00, 0xf1, 0x53, 0x65, 0x00, 0x00, 0x00, 0x00, // 1700000000
        0x00, 0x00, 0x00, 0x00, 0x00, 0x50, 0x84, 0x40, // 650.0
        0x00, 0xf1, 0x53, 0x65, 0x00, 0x00, 0x00, 0x00, // 1700000000
        0x05, 0xf1, 0x53, 0x65, 0x00, 0x00, 0x00, 0x00, // 1700000005
    ];
    assert_eq!(bytes, expected.to_vec());
    assert_eq!(bytes, sample_buffer());
}

#[test]
fn encode_orders_bytes_least_significant_first() {
    let packet = TelemetryPacket {
        ph: 0x0102_0304_0506_0708,
        ph_timestamp: -1,
        tds: 0,
        tds_timestamp: -2,
        packet_timestamp: 0x1122_3344_5566_7788,
    };
    let bytes = encode(&packet);
    assert_eq!(&bytes[0..8], &[8u8, 7, 6, 5, 4, 3, 2, 1]);
    assert_eq!(&bytes[8..16], &[0xffu8; 8]);
    assert_eq!(&bytes[16..24], &[0u8; 8]);
    assert_eq!(&bytes[24..32], &[0xfeu8, 0xff, 0xff, 0xff, 0xff, 0xff, 0xff, 0xff]);
    assert_eq!(&bytes[32..40], &[0x88u8, 0x77, 0x66, 0x55, 0x44, 0x33, 0x22, 0x11]);
}

#[test]
fn decode_agrees_with_the_standard_conversions() {
    let mut buffer = [0u8; 40];
    for (i, byte) in buffer.iter_mut().enumerate() {
        *byte = (i as u8).wrapping_mul(37).wrapping_add(201);
    }
    let packet = decode(&buffer).unwrap();
    let field = |at: usize| -> [u8; 8] { buffer[at..at + 8].try_into().unwrap() };
    assert_eq!(packet.ph, u64::from_le_bytes(field(0)));
    assert_eq!(packet.ph_timestamp, i64::from_le_bytes(field(8)));
    assert_eq!(packet.tds, u64::from_le_bytes(field(16)));
    assert_eq!(packet.tds_timestamp, i64::from_le_bytes(field(24)));
    assert_eq!(packet.packet_timestamp, i64::from_le_bytes(field(32)));
    assert_eq!(f64::from_bits(packet.ph).to_bits(), f64::from_le_bytes(field(0)).to_bits());
}

#[test]
fn every_packet_survives_encode_then_decode() {
    let packets = [
        sample_packet(),
        TelemetryPacket { ph: 0, ph_timestamp: 0, tds: 0, tds_timestamp: 0, packet_timestamp: 0 },
        TelemetryPacket {
            ph: u64::MAX,
            ph_timestamp: i64::MAX,
            tds: u64::MAX,
            tds_timestamp: i64::MIN,
            packet_timestamp: -1,
        },
        TelemetryPacket {
            ph: f64::NAN.to_bits(),
            ph_timestamp: i64::MIN,
            tds: f64::NEG_INFINITY.to_bits(),
            tds_timestamp: i64::MAX,
            packet_timestamp: i64::MIN + 1,
        },
        TelemetryPacket {
            ph: 0x7ff8_0000_dead_beef,
            ph_timestamp: -8_334_601_228_801,
            tds: (-0.0f64).to_bits(),
            tds_timestamp: 8_210_266_876_800,
            packet_timestamp: 0x0123_4567_89ab_cdef,
        },
    ];
    for packet in packets.iter() {
        let bytes = encode(packet);
        assert_eq!(bytes.len(), 40);
        assert_eq!(decode(&bytes), Ok(*packet));
    }
}

#[test]
fn every_buffer_of_forty_bytes_survives_decode_then_encode() {
    let mut buffers: Vec<[u8; 40]> = vec![[0u8; 40], [0xffu8; 40], [0x80u8; 40]];
    let mut counting = [0u8; 40];
    for (i, byte) in counting.iter_mut().enumerate() {
        *byte = i as u8;
    }
    buffers.push(counting);
    let mut scrambled = [0u8; 40];
    let mut state: u32 = 0x1234_5678;
    for byte in scrambled.iter_mut() {
        state = state.wrapping_mul(1_664_525).wrapping_add(1_013_904_223);
        *byte = (state >> 24) as u8;
    }
    buffers.push(scrambled);
    for buffer in buffers.iter() {
        let packet = decode(buffer).unwrap();
        assert_eq!(encode(&packet), buffer.to_vec());
    }
}

#[test]
fn decode_rejects_a_buffer_of_ten_bytes() {
    let buffer = [0u8; 10];
    assert_eq!(decode(&buffer), Err(DecodeError::LengthMismatch { expected: 40, actual: 10 }));
}

#[test]
fn decode_rejects_every_length_but_forty() {
    let buffer = [7u8; 100];
    for len in 0..=100usize {
        let outcome = decode(&buffer[..len]);
        if len == 40 {
            assert!(outcome.is_ok());
        } else {
            assert_eq!(outcome, Err(DecodeError::LengthMismatch { expected: 40, actual: len }));
        }
    }
}

#[test]
fn decode_does_not_cut_a_long_buffer_short() {
    let mut buffer = sample_buffer();
    buffer.push(0);
    assert_eq!(decode(&buffer), Err(DecodeError::LengthMismatch { expected: 40, actual: 41 }));
}

#[test]
fn decode_rejects_the_empty_buffer() {
    assert_eq!(decode(&[]), Err(DecodeError::LengthMismatch { expected: 40, actual: 0 }));
}
