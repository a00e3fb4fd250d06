use collector::clock::{timestamp_from, unix_now};
use collector::codec::{encode_with_timestamp, DecodeError};
use collector::command::CollectorCommandV1;
use collector::server::{to_record, Connection, ConnectionState, Record};

fn command(id: u128, total: u64, used: u64, cpu: f32) -> CollectorCommandV1 {
    CollectorCommandV1::SubmitData {
        collector_id: id,
        total_memory: total,
        used_memory: used,
        average_cpu_usage: cpu.to_bits(),
    }
}

fn record(id: &str, received: u32, total: u64, used: u64, cpu: f32) -> Record {
    Record {
        collector_id: id.to_string(),
        received,
        total_memory: total,
        used_memory: used,
        average_cpu: cpu.to_bits(),
    }
}

fn connected() -> Connection {
    let mut connection = Connection::new();
    connection.accept();
    connection
}

const ACK: [u8; 8] = [0; 8];

#[test]
fn identity_becomes_canonical_uuid_text() {
    assert_eq!(
        to_record(9, &command(123, 1, 2, 0.0)).collector_id,
        "00000000-0000-0000-0000-00000000007b"
    );
    assert_eq!(
        to_record(9, &command(0xa1a2a3a4b1b2c1c2d1d2d3d4d5d6d7d8, 1, 2, 0.0)).collector_id,
        "a1a2a3a4-b1b2-c1c2-d1d2-d3d4d5d6d7d8"
    );
    assert_eq!(
        to_record(9, &command(u128::MAX, 1, 2, 0.0)).collector_id,
        "ffffffff-ffff-ffff-ffff-ffffffffffff"
    );
    assert_eq!(
        to_record(9, &command(0x0123456789abcdef0fedcba987654321, 1, 2, 0.0)).collector_id,
        "01234567-89ab-cdef-0fed-cba987654321"
    );
}

#[test]
fn a_record_carries_every_field() {
    assert_eq!(
        to_record(1_700_000_000, &command(123, 100, 50, 0.5)),
        record("00000000-0000-0000-0000-00000000007b", 1_700_000_000, 100, 50, 0.5)
    );
}

#[test]
fn a_connection_starts_listening() {
    let mut connection = Connection::new();
    assert_eq!(connection.state(), ConnectionState::Listening);
    assert_eq!(connection.buffered(), 0);
    let frame = encode_with_timestamp(&command(1, 2, 3, 4.0), 5);
    let ingest = connection.receive(&frame);
    assert!(ingest.records.is_empty());
    assert!(ingest.replies.is_empty());
    assert_eq!(ingest.error, None);
    assert_eq!(connection.state(), ConnectionState::Listening);
    assert_eq!(connection.buffered(), 0);
    connection.accept();
    assert_eq!(connection.state(), ConnectionState::Connected);
}

#[test]
fn one_frame_in_one_read() {
    let mut connection = connected();
    let ingest = connection.receive(&encode_with_timestamp(&command(123, 100, 50, 0.5), 77));
    assert_eq!(
        ingest.records,
        vec![record("00000000-0000-0000-0000-00000000007b", 77, 100, 50, 0.5)]
    );
    assert_eq!(ingest.replies, ACK.to_vec());
    assert_eq!(ingest.error, None);
    assert_eq!(connection.state(), ConnectionState::Receiving);
    assert_eq!(connection.buffered(), 0);
}

#[test]
fn two_frames_in_one_read_are_two_records() {
    let mut stream = encode_with_timestamp(&command(1, 10, 5, 0.25), 100);
    stream.extend_from_slice(&encode_with_timestamp(&command(2, 20, 6, 0.75), 101));
    let mut connection = connected();
    let ingest = connection.receive(&stream);
    assert_eq!(
        ingest.records,
        vec![
            record("00000000-0000-0000-0000-000000000001", 100, 10, 5, 0.25),
            record("00000000-0000-0000-0000-000000000002", 101, 20, 6, 0.75),
        ]
    );
    assert_eq!(ingest.replies, [ACK, ACK].concat());
    assert_eq!(ingest.error, None);
    assert_eq!(connection.state(), ConnectionState::Receiving);
    assert_eq!(connection.buffered(), 0);
}

#[test]
fn a_frame_split_over_reads_is_put_together() {
    let frame = encode_with_timestamp(&command(123, 100, 50, 0.5), 77);
    for cut in 1..frame.len() {
        let mut connection = connected();
        let early = connection.receive(&frame[..cut]);
        assert!(early.records.is_empty());
        assert!(early.replies.is_empty());
        assert_eq!(early.error, None);
        assert_eq!(connection.state(), ConnectionState::Receiving);
        assert_eq!(connection.buffered(), cut);
        let late = connection.receive(&frame[cut..]);
        assert_eq!(
            late.records,
            vec![record("00000000-0000-0000-0000-00000000007b", 77, 100, 50, 0.5)]
        );
        assert_eq!(late.replies, ACK.to_vec());
        assert_eq!(connection.buffered(), 0);
    }
}

#[test]
fn a_read_may_end_inside_the_next_frame() {
    let first = encode_with_timestamp(&command(1, 10, 5, 0.25), 100);
    let second = encode_with_timestamp(&command(2, 20, 6, 0.75), 101);
    let mut stream = first.clone();
    stream.extend_from_slice(&second);
    let mut connection = connected();
    let early = connection.receive(&stream[..70]);
    assert_eq!(
        early.records,
        vec![record("00000000-0000-0000-0000-000000000001", 100, 10, 5, 0.25)]
    );
    assert_eq!(connection.buffered(), 14);
    let late = connection.receive(&stream[70..]);
    assert_eq!(
        late.records,
        vec![record("00000000-0000-0000-0000-000000000002", 101, 20, 6, 0.75)]
    );
    assert_eq!(connection.buffered(), 0);
}

#[test]
fn byte_by_byte_gives_the_same_records() {
    let mut stream = encode_with_timestamp(&command(1, 10, 5, 0.25), 100);
    stream.extend_from_slice(&encode_with_timestamp(&command(2, 20, 6, 0.75), 101));
    let mut connection = connected();
    let mut records: Vec<Record> = Vec::new();
    let mut replies: Vec<u8> = Vec::new();
    for byte in stream.iter() {
        let mut ingest = connection.receive(&[*byte]);
        assert_eq!(ingest.error, None);
        records.append(&mut ingest.records);
        replies.append(&mut ingest.replies);
    }
    assert_eq!(
        records,
        vec![
            record("00000000-0000-0000-0000-000000000001", 100, 10, 5, 0.25),
            record("00000000-0000-0000-0000-000000000002", 101, 20, 6, 0.75),
        ]
    );
    assert_eq!(replies, [ACK, ACK].concat());
}

#[test]
fn an_empty_read_closes_the_connection() {
    let mut connection = connected();
    let frame = encode_with_timestamp(&command(1, 10, 5, 0.25), 100);
    connection.receive(&frame[..20]);
    let ingest = connection.receive(&[]);
    assert!(ingest.records.is_empty());
    assert!(ingest.replies.is_empty());
    assert_eq!(ingest.error, None);
    assert_eq!(connection.state(), ConnectionState::Closed);
    let after = connection.receive(&frame[20..]);
    assert!(after.records.is_empty());
    assert_eq!(connection.state(), ConnectionState::Closed);
    connection.accept();
    assert_eq!(connection.state(), ConnectionState::Closed);
}

#[test]
fn a_bad_frame_ends_the_connection() {
    let good = encode_with_timestamp(&command(1, 10, 5, 0.25), 100);
    let mut bad = encode_with_timestamp(&command(2, 20, 6, 0.75), 101);
    bad[20] ^= 0x10;
    let mut stream = good.clone();
    stream.extend_from_slice(&bad);
    stream.extend_from_slice(&good);
    let mut connection = connected();
    let ingest = connection.receive(&stream);
    assert_eq!(
        ingest.records,
        vec![record("00000000-0000-0000-0000-000000000001", 100, 10, 5, 0.25)]
    );
    assert_eq!(ingest.replies, ACK.to_vec());
    assert_eq!(ingest.error, Some(DecodeError::BadChecksum));
    assert_eq!(connection.state(), ConnectionState::Error);
    let after = connection.receive(&good);
    assert!(after.records.is_empty());
    assert_eq!(after.error, None);
    assert_eq!(connection.state(), ConnectionState::Error);
}

#[test]
fn each_protocol_error_is_reported() {
    let good = encode_with_timestamp(&command(1, 10, 5, 0.25), 100);
    let mut magic = good.clone();
    magic[1] = 0;
    let mut version = good.clone();
    version[3] = 9;
    let mut checksum = good.clone();
    checksum[55] ^= 1;
    for (bytes, error) in [
        (magic, DecodeError::BadMagic),
        (version, DecodeError::BadVersion),
        (checksum, DecodeError::BadChecksum),
    ] {
        let mut connection = connected();
        let ingest = connection.receive(&bytes);
        assert!(ingest.records.is_empty());
        assert_eq!(ingest.error, Some(error));
        assert_eq!(connection.state(), ConnectionState::Error);
    }
}

#[test]
fn two_connections_do_not_mix() {
    let first = encode_with_timestamp(&command(0xaaaa, 1000, 400, 12.5), 500);
    let second = encode_with_timestamp(&command(0xbbbb, 2000, 700, 80.0), 600);
    let mut one = connected();
    let mut two = connected();
    let mut from_one: Vec<Record> = Vec::new();
    let mut from_two: Vec<Record> = Vec::new();
    from_one.append(&mut one.receive(&first[..30]).records);
    from_two.append(&mut two.receive(&second[..10]).records);
    from_two.append(&mut two.receive(&second[10..]).records);
    from_one.append(&mut one.receive(&first[30..]).records);
    from_two.append(&mut two.receive(&second).records);
    assert_eq!(
        from_one,
        vec![record("00000000-0000-0000-0000-00000000aaaa", 500, 1000, 400, 12.5)]
    );
    assert_eq!(
        from_two,
        vec![
            record("00000000-0000-0000-0000-00000000bbbb", 600, 2000, 700, 80.0),
            record("00000000-0000-0000-0000-00000000bbbb", 600, 2000, 700, 80.0),
        ]
    );
}

#[test]
fn the_clock_is_past_the_epoch() {
    let earlier = unix_now();
    let later = unix_now();
    assert!(earlier > 1_600_000_000);
    assert!(later >= earlier);
}

#[test]
fn a_timestamp_is_the_seconds_reduced_to_32_bits() {
    assert_eq!(timestamp_from(Some(0)), 0);
    assert_eq!(timestamp_from(Some(1_700_000_000)), 1_700_000_000);
    assert_eq!(timestamp_from(Some(0xffff_ffff)), u32::MAX);
    assert_eq!(timestamp_from(Some(0x1_0000_0000)), 0);
    assert_eq!(timestamp_from(Some(0x1_0000_0007)), 7);
    assert_eq!(timestamp_from(Some(u64::MAX)), u32::MAX);
    assert_eq!(timestamp_from(None), 0);
}
