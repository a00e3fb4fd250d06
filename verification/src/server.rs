//! The collector's side of a connection: bytes in, records out.
//!
//! A connection moves `Listening → Connected → Receiving → (Closed | Error)`.
//! Whatever a read returns is appended to the connection's buffer, every
//! complete frame at its front is decoded, and what is left, the beginning
//! of a frame still on its way, waits for the next read. Each decoded frame
//! becomes one [`Record`] for the storage sink and one acknowledgment for
//! the peer. A frame that does not decode ends the connection: nothing
//! behind it in the stream can be trusted.

use vstd::prelude::*;
use vstd::slice::slice_subrange;
use crate::buffer::append_bytes;
use crate::codec::{
    command_frame, decode_frame, decode_spec, frame_len, lemma_decode_ignores_rest,
    lemma_round_trip_in_stream, DecodeError,
};
use crate::command::CollectorCommandV1;
use crate::response::{
    encode_response_v1, response_bytes, CollectorResponseV1, ACK_ACCEPTED,
};

verus! {

/// The hexadecimal digit, lower case, of a value below sixteen.
pub open spec fn hex_digit(nibble: u128) -> char
    recommends
        nibble < 16,
{
    if nibble < 10 {
        (48 + nibble) as char
    } else {
        (87 + nibble) as char
    }
}

/// How many hexadecimal digits stand before position `at` of a UUID's text.
pub open spec fn digits_before(at: int) -> int {
    if at > 23 {
        at - 4
    } else if at > 18 {
        at - 3
    } else if at > 13 {
        at - 2
    } else if at > 8 {
        at - 1
    } else {
        at
    }
}

/// The canonical text of the UUID with the 128-bit value `id`: its
/// thirty-two hexadecimal digits, most significant first and lower case,
/// in groups of 8, 4, 4, 4 and 12 with a hyphen between groups.
pub open spec fn uuid_text(id: u128) -> Seq<char> {
    Seq::new(
        36,
        |at: int|
            if at == 8 || at == 13 || at == 18 || at == 23 {
                '-'
            } else {
                hex_digit((id >> ((4 * (31 - digits_before(at))) as u128)) & 0xf)
            },
    )
}

/// Calls `uuid::Uuid::from_u128` and formats the result with its `Display`
/// impl, which writes the hyphenated lower-case form.
#[verifier::external_body]
pub(crate) fn uuid_string(id: u128) -> (text: String)
    ensures
        text@ == uuid_text(id),
{
    uuid::Uuid::from_u128(id).to_string()
}

/// What the storage sink is asked to insert for one decoded frame.
///
/// `average_cpu` holds the IEEE-754 bit pattern of the 32-bit float.
#[derive(Debug, PartialEq, Eq)]
pub struct Record {
    /// The collector's identity as canonical UUID text.
    pub collector_id: String,
    /// The frame's timestamp, seconds since the Unix epoch.
    pub received: u32,
    pub total_memory: u64,
    pub used_memory: u64,
    pub average_cpu: u32,
}

/// A [`Record`] with its text as a sequence.
pub struct RecordView {
    pub collector_id: Seq<char>,
    pub received: u32,
    pub total_memory: u64,
    pub used_memory: u64,
    pub average_cpu: u32,
}

impl View for Record {
    type V = RecordView;

    open spec fn view(&self) -> RecordView {
        RecordView {
            collector_id: self.collector_id@,
            received: self.received,
            total_memory: self.total_memory,
            used_memory: self.used_memory,
            average_cpu: self.average_cpu,
        }
    }
}

/// The record that a frame with this timestamp and command stands for.
pub open spec fn record_of(timestamp: u32, command: CollectorCommandV1) -> RecordView {
    match command {
        CollectorCommandV1::SubmitData {
            collector_id,
            total_memory,
            used_memory,
            average_cpu_usage,
        } => RecordView {
            collector_id: uuid_text(collector_id),
            received: timestamp,
            total_memory,
            used_memory,
            average_cpu: average_cpu_usage,
        },
    }
}

/// Turns a decoded frame into the record to insert.
pub fn to_record(timestamp: u32, command: &CollectorCommandV1) -> (record: Record)
    ensures
        record@ == record_of(timestamp, *command),
{
    match command {
        CollectorCommandV1::SubmitData {
            collector_id,
            total_memory,
            used_memory,
            average_cpu_usage,
        } => Record {
            collector_id: uuid_string(*collector_id),
            received: timestamp,
            total_memory: *total_memory,
            used_memory: *used_memory,
            average_cpu: *average_cpu_usage,
        },
    }
}

/// A byte stream cut into frames.
pub struct Parsed {
    /// The frames decoded from the front, in order.
    pub items: Seq<(u32, CollectorCommandV1)>,
    /// The bytes behind the last decoded frame.
    pub rest: Seq<u8>,
    /// Why `rest` can never become a frame, if that is so.
    pub error: Option<DecodeError>,
}

/// Cuts `bytes` into the frames it starts with. Decoding stops at the first
/// position that holds no complete valid frame: where the bytes there are
/// only the beginning of one, they are left over without error; where they
/// cannot be a frame, with the error.
pub open spec fn parse_stream(bytes: Seq<u8>) -> Parsed
    decreases bytes.len(),
{
    match decode_spec(bytes) {
        Ok(item) => {
            let behind = parse_stream(bytes.skip(frame_len(bytes) as int));
            Parsed { items: seq![item] + behind.items, rest: behind.rest, error: behind.error }
        },
        Err(DecodeError::Truncated) => Parsed { items: Seq::empty(), rest: bytes, error: None },
        Err(error) => Parsed { items: Seq::empty(), rest: bytes, error: Some(error) },
    }
}

/// The records of decoded frames.
pub open spec fn records_of(items: Seq<(u32, CollectorCommandV1)>) -> Seq<RecordView> {
    Seq::new(items.len(), |i: int| record_of(items[i].0, items[i].1))
}

/// The views of records.
pub open spec fn record_views(records: Seq<Record>) -> Seq<RecordView> {
    Seq::new(records.len(), |i: int| records[i]@)
}

/// `count` accepting acknowledgments, one after another.
pub open spec fn acknowledgments(count: nat) -> Seq<u8>
    decreases count,
{
    if count == 0 {
        Seq::empty()
    } else {
        acknowledgments((count - 1) as nat) + response_bytes(
            CollectorResponseV1::Ack(ACK_ACCEPTED),
        )
    }
}

/// Where a connection stands.
#[derive(Debug, Clone, Copy, PartialEq, Eq, Structural)]
pub enum ConnectionState {
    /// No peer yet.
    Listening,
    /// A peer was accepted; nothing was read from it so far.
    Connected,
    /// Bytes have been read and all frames in them were valid.
    Receiving,
    /// The peer closed the connection.
    Closed,
    /// A frame did not decode; the connection is given up.
    Error,
}

/// A connection as a value.
pub struct ConnectionView {
    pub state: ConnectionState,
    /// The bytes read that are not yet a complete frame.
    pub buffer: Seq<u8>,
}

/// What one read brought.
#[derive(Debug, PartialEq, Eq)]
pub struct Ingest {
    /// One record per frame decoded, in stream order, for the storage sink.
    pub records: Vec<Record>,
    /// The acknowledgments to write back, one per frame decoded.
    pub replies: Vec<u8>,
    /// Set where a frame did not decode and the connection is to be dropped.
    pub error: Option<DecodeError>,
}

/// An [`Ingest`] as a value.
pub struct IngestView {
    pub records: Seq<RecordView>,
    pub replies: Seq<u8>,
    pub error: Option<DecodeError>,
}

impl View for Ingest {
    type V = IngestView;

    open spec fn view(&self) -> IngestView {
        IngestView {
            records: record_views(self.records@),
            replies: self.replies@,
            error: self.error,
        }
    }
}

/// A read that brought nothing.
pub open spec fn nothing() -> IngestView {
    IngestView { records: Seq::empty(), replies: Seq::empty(), error: None }
}

/// The connection after a peer was accepted. Only a listening connection
/// can accept.
pub open spec fn accept_spec(connection: ConnectionView) -> ConnectionView {
    if connection.state is Listening {
        ConnectionView { state: ConnectionState::Connected, buffer: connection.buffer }
    } else {
        connection
    }
}

/// The connection after a read returned `chunk`, and what the read brought.
/// An empty chunk means the peer closed. A connection that has no peer, or
/// has ended, takes nothing in.
pub open spec fn receive_spec(connection: ConnectionView, chunk: Seq<u8>) -> (
    ConnectionView,
    IngestView,
) {
    if !(connection.state is Connected || connection.state is Receiving) {
        (connection, nothing())
    } else if chunk.len() == 0 {
        (ConnectionView { state: ConnectionState::Closed, buffer: connection.buffer }, nothing())
    } else {
        let parsed = parse_stream(connection.buffer + chunk);
        (
            ConnectionView {
                state: if parsed.error is Some {
                    ConnectionState::Error
                } else {
                    ConnectionState::Receiving
                },
                buffer: parsed.rest,
            },
            IngestView {
                records: records_of(parsed.items),
                replies: acknowledgments(parsed.items.len()),
                error: parsed.error,
            },
        )
    }
}

/// The receiving end of one connection.
pub struct Connection {
    state: ConnectionState,
    buffer: Vec<u8>,
}

impl View for Connection {
    type V = ConnectionView;

    closed spec fn view(&self) -> ConnectionView {
        ConnectionView { state: self.state, buffer: self.buffer@ }
    }
}

impl Connection {
    /// A connection that waits for its peer.
    pub fn new() -> (connection: Self)
        ensures
            connection@ == (ConnectionView {
                state: ConnectionState::Listening,
                buffer: Seq::empty(),
            }),
    {
        Connection { state: ConnectionState::Listening, buffer: Vec::new() }
    }

    /// Where the connection stands.
    pub fn state(&self) -> (state: ConnectionState)
        ensures
            state == self@.state,
    {
        self.state
    }

    /// How many bytes wait for the rest of their frame.
    pub fn buffered(&self) -> (n: usize)
        ensures
            n == self@.buffer.len(),
    {
        self.buffer.len()
    }

    /// A peer was accepted.
    pub fn accept(&mut self)
        ensures
            final(self)@ == accept_spec(old(self)@),
    {
        match self.state {
            ConnectionState::Listening => {
                self.state = ConnectionState::Connected;
            },
            _ => {},
        }
    }

    /// Takes in what a read returned and decodes every frame that is now
    /// complete.
    pub fn receive(&mut self, chunk: &[u8]) -> (ingest: Ingest)
        ensures
            (final(self)@, ingest@) == receive_spec(old(self)@, chunk@),
    {
        let mut records: Vec<Record> = Vec::new();
        let mut replies: Vec<u8> = Vec::new();
        match self.state {
            ConnectionState::Connected | ConnectionState::Receiving => {},
            _ => {
                assert(record_views(records@) =~= Seq::<RecordView>::empty());
                return Ingest { records, replies, error: None };
            },
        }
        if chunk.len() == 0 {
            self.state = ConnectionState::Closed;
            assert(record_views(records@) =~= Seq::<RecordView>::empty());
            return Ingest { records, replies, error: None };
        }
        append_bytes(&mut self.buffer, chunk);
        let ghost all = self.buffer@;
        let ghost mut done: Seq<(u32, CollectorCommandV1)> = Seq::empty();
        let ack: Vec<u8> = encode_response_v1(&CollectorResponseV1::Ack(ACK_ACCEPTED));
        let mut error: Option<DecodeError> = None;
        let mut at: usize = 0;
        assert(all.skip(0) =~= all);
        assert(record_views(records@) =~= records_of(done));
        loop
            invariant_except_break
                error is None,
                parse_stream(all).items == done + parse_stream(all.skip(at as int)).items,
                parse_stream(all).rest == parse_stream(all.skip(at as int)).rest,
                parse_stream(all).error == parse_stream(all.skip(at as int)).error,
            invariant
                self.buffer@ == all,
                at <= all.len(),
                ack@ == response_bytes(CollectorResponseV1::Ack(ACK_ACCEPTED)),
                records@.len() == done.len(),
                record_views(records@) == records_of(done),
                replies@ == acknowledgments(done.len()),
            ensures
                parse_stream(all).items == done,
                parse_stream(all).rest == all.skip(at as int),
                parse_stream(all).error == error,
            decreases all.len() - at,
        {
            let ghost tail = all.skip(at as int);
            let window: &[u8] = slice_subrange(self.buffer.as_slice(), at, self.buffer.len());
            assert(window@ =~= tail);
            match decode_frame(window) {
                Ok((timestamp, command, taken)) => {
                    let record: Record = to_record(timestamp, &command);
                    proof {
                        assert(tail.skip(taken as int) =~= all.skip(at + taken));
                        assert(done.push((timestamp, command)) + parse_stream(
                            all.skip(at + taken),
                        ).items =~= done + (seq![(timestamp, command)] + parse_stream(
                            all.skip(at + taken),
                        ).items));
                        let grown = done.push((timestamp, command));
                        assert forall|i: int| 0 <= i < grown.len() implies record_views(
                            records@.push(record),
                        )[i] == records_of(grown)[i] by {
                            if i < done.len() {
                                assert(record_views(records@)[i] == records_of(done)[i]);
                            }
                        }
                        assert(record_views(records@.push(record)) =~= records_of(grown));
                        done = done.push((timestamp, command));
                    }
                    records.push(record);
                    append_bytes(&mut replies, ack.as_slice());
                    at = at + taken;
                },
                Err(DecodeError::Truncated) => {
                    assert(done + Seq::<(u32, CollectorCommandV1)>::empty() =~= done);
                    break ;
                },
                Err(other) => {
                    assert(done + Seq::<(u32, CollectorCommandV1)>::empty() =~= done);
                    error = Some(other);
                    break ;
                },
            }
        }
        let rest: Vec<u8> = self.buffer.split_off(at);
        self.buffer = rest;
        assert(self.buffer@ =~= all.skip(at as int));
        self.state = if error.is_some() {
            ConnectionState::Error
        } else {
            ConnectionState::Receiving
        };
        Ingest { records, replies, error }
    }
}

/// Records follow the frames they come from, across a cut.
pub proof fn lemma_records_concat(
    first: Seq<(u32, CollectorCommandV1)>,
    second: Seq<(u32, CollectorCommandV1)>,
)
    ensures
        records_of(first + second) == records_of(first) + records_of(second),
{
    assert(records_of(first + second) =~= records_of(first) + records_of(second));
}

/// Acknowledgments add up.
pub proof fn lemma_acknowledgments_concat(first: nat, second: nat)
    ensures
        acknowledgments(first + second) == acknowledgments(first) + acknowledgments(second),
    decreases second,
{
    if second == 0 {
        assert(acknowledgments(first) + acknowledgments(0) =~= acknowledgments(first));
    } else {
        lemma_acknowledgments_concat(first, (second - 1) as nat);
        let one = response_bytes(CollectorResponseV1::Ack(ACK_ACCEPTED));
        assert((acknowledgments(first) + acknowledgments((second - 1) as nat)) + one
            =~= acknowledgments(first) + (acknowledgments((second - 1) as nat) + one));
    }
}

/// A stream that opens with an encoded command yields that command first,
/// then whatever the bytes behind it hold.
pub proof fn lemma_stream_frame(command: CollectorCommandV1, timestamp: u32, rest: Seq<u8>)
    ensures
        ({
            let whole = parse_stream(command_frame(command, timestamp) + rest);
            let behind = parse_stream(rest);
            &&& whole.items == seq![(timestamp, command)] + behind.items
            &&& whole.rest == behind.rest
            &&& whole.error == behind.error
        }),
{
    let frame = command_frame(command, timestamp);
    lemma_round_trip_in_stream(command, timestamp, rest);
    assert((frame + rest).skip(frame.len() as int) =~= rest);
}

/// Multi-frame stream: two frames back to back decode as two commands, in
/// order, with nothing left over.
pub proof fn lemma_stream_two_frames(
    first: CollectorCommandV1,
    first_time: u32,
    second: CollectorCommandV1,
    second_time: u32,
)
    ensures
        parse_stream(command_frame(first, first_time) + command_frame(second, second_time)) == (
        Parsed {
            items: seq![(first_time, first), (second_time, second)],
            rest: Seq::empty(),
            error: None,
        }),
{
    let none = Seq::<u8>::empty();
    let tail = command_frame(second, second_time);
    lemma_stream_frame(first, first_time, tail);
    lemma_stream_frame(second, second_time, none);
    assert(tail + none =~= tail);
    let whole = parse_stream(command_frame(first, first_time) + tail);
    assert(whole.items =~= seq![(first_time, first), (second_time, second)]);
}

/// Cutting does not depend on how the stream arrives: where the bytes so
/// far hold no invalid frame, the frames of the stream continued are the
/// frames found so far, followed by those found in what was left over
/// together with the continuation.
pub proof fn lemma_stream_append(so_far: Seq<u8>, more: Seq<u8>)
    requires
        parse_stream(so_far).error is None,
    ensures
        ({
            let whole = parse_stream(so_far + more);
            let early = parse_stream(so_far);
            let late = parse_stream(early.rest + more);
            &&& whole.items == early.items + late.items
            &&& whole.rest == late.rest
            &&& whole.error == late.error
        }),
    decreases so_far.len(),
{
    let whole = parse_stream(so_far + more);
    let early = parse_stream(so_far);
    let late = parse_stream(early.rest + more);
    match decode_spec(so_far) {
        Ok(item) => {
            lemma_decode_ignores_rest(so_far, more);
            let taken = frame_len(so_far) as int;
            let behind = so_far.skip(taken);
            assert((so_far + more).skip(taken) =~= behind + more);
            lemma_stream_append(behind, more);
            assert(whole.items =~= early.items + late.items);
        },
        Err(error) => {
            assert(early.items + late.items =~= late.items);
        },
    }
}

/// Partial reads: taking a stream in as two reads gives, all told, the
/// records, the acknowledgments and the final state that one read of the
/// whole would have given, as long as the first read met no invalid frame.
pub proof fn lemma_receive_in_two_reads(connection: ConnectionView, first: Seq<u8>, second: Seq<u8>)
    requires
        connection.state is Connected || connection.state is Receiving,
        first.len() > 0,
        second.len() > 0,
        receive_spec(connection, first).1.error is None,
    ensures
        ({
            let (midway, early) = receive_spec(connection, first);
            let (split, late) = receive_spec(midway, second);
            let (joined, whole) = receive_spec(connection, first + second);
            &&& split == joined
            &&& early.records + late.records == whole.records
            &&& early.replies + late.replies == whole.replies
            &&& late.error == whole.error
        }),
{
    let so_far = connection.buffer + first;
    lemma_stream_append(so_far, second);
    assert(so_far + second =~= connection.buffer + (first + second));
    let early = parse_stream(so_far);
    let late = parse_stream(early.rest + second);
    lemma_records_concat(early.items, late.items);
    lemma_acknowledgments_concat(early.items.len(), late.items.len());
}

/// Multi-frame read: one read that brings two frames back to back yields
/// two records, in order, and two acknowledgments, and leaves nothing in
/// the buffer.
pub proof fn lemma_receive_two_frames(
    first: CollectorCommandV1,
    first_time: u32,
    second: CollectorCommandV1,
    second_time: u32,
)
    ensures
        receive_spec(
            ConnectionView { state: ConnectionState::Connected, buffer: Seq::empty() },
            command_frame(first, first_time) + command_frame(second, second_time),
        ) == (
            ConnectionView { state: ConnectionState::Receiving, buffer: Seq::empty() },
            IngestView {
                records: seq![record_of(first_time, first), record_of(second_time, second)],
                replies: acknowledgments(2),
                error: None,
            },
        ),
{
    let chunk = command_frame(first, first_time) + command_frame(second, second_time);
    lemma_stream_two_frames(first, first_time, second, second_time);
    lemma_round_trip_in_stream(first, first_time, command_frame(second, second_time));
    assert(Seq::<u8>::empty() + chunk =~= chunk);
    let items = seq![(first_time, first), (second_time, second)];
    assert(records_of(items) =~= seq![
        record_of(first_time, first),
        record_of(second_time, second),
    ]);
}

} // verus!
