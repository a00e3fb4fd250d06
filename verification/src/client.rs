//! The sending side of an agent: every sample is encoded, queued behind
//! what is still undelivered, and the queue is flushed. A failed flush
//! loses nothing: the frames stay queued for the flush that the next
//! sample brings.

use vstd::prelude::*;
use crate::clock::unix_now;
use crate::codec::{command_frame, encode_with_timestamp};
use crate::command::CollectorCommandV1;
use crate::errors::CollectorError;
use crate::queue::{flush_outcome, DeliveryQueue, Transport};

verus! {

/// Encodes `command` with the given timestamp, appends the frame to
/// `queue` and flushes the queue over `transport`.
pub fn submit_at<T: Transport>(
    queue: &mut DeliveryQueue,
    command: &CollectorCommandV1,
    timestamp: u32,
    transport: &mut T,
) -> (result: Result<(), CollectorError>)
    ensures
        flush_outcome(
            old(queue)@.frames.push(command_frame(*command, timestamp)),
            final(queue)@,
            result,
        ),
{
    let frame: Vec<u8> = encode_with_timestamp(command, timestamp);
    queue.enqueue(frame);
    queue.flush(transport)
}

/// Encodes `command` with the current time, appends the frame to `queue`
/// and flushes the queue over `transport`.
pub fn submit<T: Transport>(
    queue: &mut DeliveryQueue,
    command: &CollectorCommandV1,
    transport: &mut T,
) -> (result: Result<(), CollectorError>)
    ensures
        exists|timestamp: u32|
            flush_outcome(
                old(queue)@.frames.push(#[trigger] command_frame(*command, timestamp)),
                final(queue)@,
                result,
            ),
{
    let timestamp: u32 = unix_now();
    submit_at(queue, command, timestamp, transport)
}

} // verus!
