use collector::codec::{
    decode_frame, decode_v1, encode_v1, encode_with_timestamp, DecodeError, MAGIC_NUMBER,
    VERSION_NUMBER,
};
use collector::command::{deserialize_command, serialize_command, CollectorCommandV1};

fn sample() -> CollectorCommandV1 {
    CollectorCommandV1::SubmitData {
        collector_id: 123,
        total_memory: 100,
        used_memory: 50,
        average_cpu_usage: 0.5f32.to_bits(),
    }
}

/// A frame around an arbitrary payload, with a matching checksum.
fn frame_around(payload: &[u8], timestamp: u32) -> Vec<u8> {
    let mut frame = Vec::new();
    frame.extend_from_slice(&MAGIC_NUMBER.to_be_bytes());
    frame.extend_from_slice(&VERSION_NUMBER.to_be_bytes());
    frame.extend_from_slice(&timestamp.to_be_bytes());
    frame.extend_from_slice(&(payload.len() as u32).to_be_bytes());
    frame.extend_from_slice(payload);
    frame.extend_from_slice(&crc32fast::hash(payload).to_be_bytes());
    frame
}

#[test]
fn test_encode_decode() {
    let command = CollectorCommandV1::SubmitData {
        collector_id: 123,
        total_memory: 100,
        used_memory: 50,
        average_cpu_usage: 0.5f32.to_bits(),
    };
    let encoded = encode_v1(&command);
    let (timestamp, decoded) = decode_v1(&encoded).unwrap();
    assert_eq!(decoded, command);
    assert!(timestamp > 0);
    let CollectorCommandV1::SubmitData { average_cpu_usage, .. } = decoded;
    assert_eq!(f32::from_bits(average_cpu_usage), 0.5);
}

#[test]
fn encode_gives_the_exact_frame() {
    let frame = encode_with_timestamp(&sample(), 1_700_000_000);
    let expected: Vec<u8> = vec![
        4, 210, 0, 1, 101, 83, 241, 0, 0, 0, 0, 40, 0, 0, 0, 0, 123, 0, 0, 0, 0, 0, 0, 0, 0, 0, 0,
        0, 0, 0, 0, 0, 100, 0, 0, 0, 0, 0, 0, 0, 50, 0, 0, 0, 0, 0, 0, 0, 0, 0, 0, 63, 25, 100,
        76, 212,
    ];
    assert_eq!(frame, expected);
}

#[test]
fn payload_is_forty_bytes_little_endian() {
    let payload = serialize_command(&sample());
    let expected: Vec<u8> = vec![
        0, 0, 0, 0, 123, 0, 0, 0, 0, 0, 0, 0, 0, 0, 0, 0, 0, 0, 0, 0, 100, 0, 0, 0, 0, 0, 0, 0,
        50, 0, 0, 0, 0, 0, 0, 0, 0, 0, 0, 63,
    ];
    assert_eq!(payload, expected);
    assert_eq!(deserialize_command(&payload), Some(sample()));
}

#[test]
fn payload_with_wide_values_round_trips() {
    let command = CollectorCommandV1::SubmitData {
        collector_id: 0xa1a2a3a4b1b2c1c2d1d2d3d4d5d6d7d8,
        total_memory: u64::MAX,
        used_memory: 0x0102030405060708,
        average_cpu_usage: 99.25f32.to_bits(),
    };
    let payload = serialize_command(&command);
    assert_eq!(payload.len(), 40);
    assert_eq!(&payload[4..20], &0xa1a2a3a4b1b2c1c2d1d2d3d4d5d6d7d8u128.to_le_bytes()[..]);
    assert_eq!(&payload[20..28], &[255u8; 8][..]);
    assert_eq!(&payload[28..36], &[8u8, 7, 6, 5, 4, 3, 2, 1][..]);
    assert_eq!(&payload[36..40], &99.25f32.to_le_bytes()[..]);
    assert_eq!(deserialize_command(&payload), Some(command));
}

#[test]
fn payload_too_short_or_unknown_is_refused() {
    let payload = serialize_command(&sample());
    assert_eq!(deserialize_command(&payload[..39]), None);
    assert_eq!(deserialize_command(&[]), None);
    let mut other = payload.clone();
    other[0] = 1;
    assert_eq!(deserialize_command(&other), None);
    let mut longer = payload.clone();
    longer.push(9);
    assert_eq!(deserialize_command(&longer), Some(sample()));
}

#[test]
fn round_trip_keeps_command_and_timestamp() {
    let commands = [
        sample(),
        CollectorCommandV1::SubmitData {
            collector_id: 0,
            total_memory: 0,
            used_memory: 0,
            average_cpu_usage: 0,
        },
        CollectorCommandV1::SubmitData {
            collector_id: u128::MAX,
            total_memory: u64::MAX,
            used_memory: u64::MAX,
            average_cpu_usage: u32::MAX,
        },
    ];
    for command in commands.iter() {
        for timestamp in [0u32, 1, 1_700_000_000, u32::MAX] {
            let frame = encode_with_timestamp(command, timestamp);
            assert_eq!(frame.len(), 56);
            assert_eq!(decode_v1(&frame), Ok((timestamp, *command)));
            assert_eq!(decode_frame(&frame), Ok((timestamp, *command, 56)));
        }
    }
}

#[test]
fn encode_v1_stamps_the_current_time() {
    let frame = encode_v1(&sample());
    let (timestamp, command) = decode_v1(&frame).unwrap();
    assert_eq!(command, sample());
    assert_eq!(frame, encode_with_timestamp(&sample(), timestamp));
    assert!(timestamp > 1_600_000_000);
}

#[test]
fn every_payload_bit_flip_is_a_bad_checksum() {
    let frame = encode_with_timestamp(&sample(), 42);
    for index in 12..52 {
        for bit in 0..8 {
            let mut damaged = frame.clone();
            damaged[index] ^= 1u8 << bit;
            assert_eq!(decode_v1(&damaged), Err(DecodeError::BadChecksum));
        }
    }
}

#[test]
fn every_checksum_bit_flip_is_a_bad_checksum() {
    let frame = encode_with_timestamp(&sample(), 42);
    for index in 52..56 {
        for bit in 0..8 {
            let mut damaged = frame.clone();
            damaged[index] ^= 1u8 << bit;
            assert_eq!(decode_v1(&damaged), Err(DecodeError::BadChecksum));
        }
    }
}

#[test]
fn every_magic_bit_flip_is_a_bad_magic() {
    let frame = encode_with_timestamp(&sample(), 42);
    for index in 0..2 {
        for bit in 0..8 {
            let mut damaged = frame.clone();
            damaged[index] ^= 1u8 << bit;
            assert_eq!(decode_v1(&damaged), Err(DecodeError::BadMagic));
        }
    }
}

#[test]
fn every_version_bit_flip_is_a_bad_version() {
    let frame = encode_with_timestamp(&sample(), 42);
    for index in 2..4 {
        for bit in 0..8 {
            let mut damaged = frame.clone();
            damaged[index] ^= 1u8 << bit;
            assert_eq!(decode_v1(&damaged), Err(DecodeError::BadVersion));
        }
    }
}

#[test]
fn timestamp_is_not_covered_by_the_checksum() {
    let mut frame = encode_with_timestamp(&sample(), 0);
    frame[7] = 9;
    assert_eq!(decode_v1(&frame), Ok((9, sample())));
}

#[test]
fn every_strict_prefix_is_truncated() {
    let frame = encode_with_timestamp(&sample(), 42);
    for cut in 0..frame.len() {
        assert_eq!(decode_v1(&frame[..cut]), Err(DecodeError::Truncated));
    }
    assert_eq!(decode_v1(&frame), Ok((42, sample())));
}

#[test]
fn a_wrong_field_is_reported_as_soon_as_it_is_complete() {
    assert_eq!(decode_v1(&[]), Err(DecodeError::Truncated));
    assert_eq!(decode_v1(&[0xff]), Err(DecodeError::Truncated));
    assert_eq!(decode_v1(&[0xff, 0xff]), Err(DecodeError::BadMagic));
    assert_eq!(decode_v1(&[4, 210]), Err(DecodeError::Truncated));
    assert_eq!(decode_v1(&[4, 210, 0]), Err(DecodeError::Truncated));
    assert_eq!(decode_v1(&[4, 210, 0, 2]), Err(DecodeError::BadVersion));
    assert_eq!(decode_v1(&[4, 210, 0, 1]), Err(DecodeError::Truncated));
    assert_eq!(decode_v1(&[4, 210, 0, 1, 0, 0, 0, 0, 0, 0, 0]), Err(DecodeError::Truncated));
}

#[test]
fn magic_is_checked_before_version() {
    let mut frame = encode_with_timestamp(&sample(), 42);
    frame[0] = 0;
    frame[3] = 7;
    assert_eq!(decode_v1(&frame), Err(DecodeError::BadMagic));
}

#[test]
fn a_huge_declared_length_is_truncated() {
    let mut frame = encode_with_timestamp(&sample(), 42);
    frame[8] = 0xff;
    frame[9] = 0xff;
    frame[10] = 0xff;
    frame[11] = 0xff;
    assert_eq!(decode_v1(&frame), Err(DecodeError::Truncated));
}

#[test]
fn bytes_behind_the_frame_are_ignored() {
    let mut bytes = encode_with_timestamp(&sample(), 42);
    bytes.extend_from_slice(&[1, 2, 3]);
    assert_eq!(decode_v1(&bytes), Ok((42, sample())));
    assert_eq!(decode_frame(&bytes), Ok((42, sample(), 56)));
}

#[test]
fn a_checksummed_payload_that_is_no_command_is_malformed() {
    let mut unknown_tag = serialize_command(&sample());
    unknown_tag[0] = 7;
    assert_eq!(
        decode_v1(&frame_around(&unknown_tag, 5)),
        Err(DecodeError::MalformedPayload)
    );
    assert_eq!(decode_v1(&frame_around(&[], 5)), Err(DecodeError::MalformedPayload));
    assert_eq!(
        decode_v1(&frame_around(&[0, 0, 0, 0, 1, 2, 3], 5)),
        Err(DecodeError::MalformedPayload)
    );
}

#[test]
fn a_hand_built_frame_decodes() {
    let payload = serialize_command(&sample());
    assert_eq!(frame_around(&payload, 77), encode_with_timestamp(&sample(), 77));
    let mut padded = payload.clone();
    padded.extend_from_slice(&[0xaa, 0xbb]);
    assert_eq!(decode_frame(&frame_around(&padded, 77)), Ok((77, sample(), 58)));
}

#[test]
fn checksum_is_the_crc32_of_the_payload() {
    let frame = encode_with_timestamp(&sample(), 42);
    assert_eq!(&frame[52..56], &[0x19u8, 0x64, 0x4c, 0xd4][..]);
}
