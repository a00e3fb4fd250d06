//! The delivery queue: encoded frames in arrival order, handed to one
//! connection head first, each one kept until the collector has
//! acknowledged it.
//!
//! The queue does no I/O. A flush is a dialogue: the caller reports what the
//! transport did as a [`FlushEvent`], and [`DeliveryQueue::step`] answers
//! with the [`FlushAction`] to perform next. A frame leaves the queue only
//! when an accepting acknowledgment for it is reported; every failure ends
//! the flush with the frame still at the head and the frames behind it
//! untouched. [`DeliveryQueue::flush`] plays the whole dialogue against a
//! [`Transport`].
//!
//! The queue has no capacity bound: while the collector cannot be reached
//! it grows by one frame with every sample.

use std::collections::VecDeque;
use vstd::prelude::*;
use crate::buffer::copy_of;
use crate::errors::CollectorError;
use crate::response::{accepts, is_accepting};

verus! {

/// Where a flush stands.
#[derive(Debug, Clone, Copy, PartialEq, Eq, Structural)]
pub enum FlushPhase {
    /// No flush is under way.
    Idle,
    /// A connection was asked for.
    Connecting,
    /// The head frame was handed out for writing.
    Sending,
    /// The head frame was written; its acknowledgment is awaited.
    AwaitingAck,
}

/// What the transport did, as the caller reports it.
#[derive(Debug, PartialEq, Eq)]
pub enum FlushEvent {
    /// The caller wants the queue flushed.
    Start,
    /// The connection is open.
    Connected,
    /// The connection could not be opened.
    ConnectFailed,
    /// The frame of the last `Send` was written in full.
    Written,
    /// Writing the frame failed.
    WriteFailed,
    /// These bytes were read in reply to the frame.
    Response(Vec<u8>),
    /// No reply could be read: the read failed, timed out, or the peer had
    /// closed the connection.
    NoResponse,
}

/// What the caller is to do next.
#[derive(Debug, PartialEq, Eq)]
pub enum FlushAction {
    /// Open the connection to the collector.
    Connect,
    /// Write these bytes, the frame at the head of the queue.
    Send(Vec<u8>),
    /// Read the collector's reply to the frame just written.
    AwaitResponse,
    /// The flush is over, with this result.
    Finished(Result<(), CollectorError>),
    /// The event did not fit the phase and was ignored.
    Nothing,
}

/// A [`FlushEvent`] with its bytes as a sequence.
pub enum EventView {
    Start,
    Connected,
    ConnectFailed,
    Written,
    WriteFailed,
    Response(Seq<u8>),
    NoResponse,
}

/// A [`FlushAction`] with its bytes as a sequence.
pub enum ActionView {
    Connect,
    Send(Seq<u8>),
    AwaitResponse,
    Finished(Result<(), CollectorError>),
    Nothing,
}

impl View for FlushEvent {
    type V = EventView;

    open spec fn view(&self) -> EventView {
        match self {
            FlushEvent::Start => EventView::Start,
            FlushEvent::Connected => EventView::Connected,
            FlushEvent::ConnectFailed => EventView::ConnectFailed,
            FlushEvent::Written => EventView::Written,
            FlushEvent::WriteFailed => EventView::WriteFailed,
            FlushEvent::Response(bytes) => EventView::Response(bytes@),
            FlushEvent::NoResponse => EventView::NoResponse,
        }
    }
}

impl View for FlushAction {
    type V = ActionView;

    open spec fn view(&self) -> ActionView {
        match self {
            FlushAction::Connect => ActionView::Connect,
            FlushAction::Send(frame) => ActionView::Send(frame@),
            FlushAction::AwaitResponse => ActionView::AwaitResponse,
            FlushAction::Finished(result) => ActionView::Finished(*result),
            FlushAction::Nothing => ActionView::Nothing,
        }
    }
}

/// The queue as a value: its frames, head first, and the phase of the flush.
pub struct QueueState {
    pub frames: Seq<Seq<u8>>,
    pub phase: FlushPhase,
}

impl QueueState {
    /// The queue holding `frames` with no flush under way.
    pub open spec fn idle(frames: Seq<Seq<u8>>) -> QueueState {
        QueueState { frames, phase: FlushPhase::Idle }
    }
}

/// `frames` without the one at the head.
pub open spec fn behind_head(frames: Seq<Seq<u8>>) -> Seq<Seq<u8>> {
    if frames.len() > 0 {
        frames.skip(1)
    } else {
        frames
    }
}

/// The flush ends with `result`, leaving `frames`.
pub open spec fn finish(frames: Seq<Seq<u8>>, result: Result<(), CollectorError>) -> (
    QueueState,
    ActionView,
) {
    (QueueState::idle(frames), ActionView::Finished(result))
}

/// The flush goes on with the head of `frames`, or ends well where none is
/// left.
pub open spec fn attempt(frames: Seq<Seq<u8>>) -> (QueueState, ActionView) {
    if frames.len() == 0 {
        finish(frames, Ok(()))
    } else {
        (QueueState { frames, phase: FlushPhase::Sending }, ActionView::Send(frames[0]))
    }
}

/// The transition function of a flush: the state after `event` and the
/// action that answers it.
pub open spec fn step_spec(state: QueueState, event: EventView) -> (QueueState, ActionView) {
    match (state.phase, event) {
        (FlushPhase::Idle, EventView::Start) => (
            QueueState { frames: state.frames, phase: FlushPhase::Connecting },
            ActionView::Connect,
        ),
        (FlushPhase::Connecting, EventView::Connected) => attempt(state.frames),
        (FlushPhase::Connecting, EventView::ConnectFailed) => finish(
            state.frames,
            Err(CollectorError::UnableToConnect),
        ),
        (FlushPhase::Sending, EventView::Written) => (
            QueueState { frames: state.frames, phase: FlushPhase::AwaitingAck },
            ActionView::AwaitResponse,
        ),
        (FlushPhase::Sending, EventView::WriteFailed) => finish(
            state.frames,
            Err(CollectorError::UnableToSend),
        ),
        (FlushPhase::AwaitingAck, EventView::Response(bytes)) => if is_accepting(bytes) {
            attempt(behind_head(state.frames))
        } else {
            finish(state.frames, Err(CollectorError::UnableToReceive))
        },
        (FlushPhase::AwaitingAck, EventView::NoResponse) => finish(
            state.frames,
            Err(CollectorError::UnableToReceive),
        ),
        _ => (state, ActionView::Nothing),
    }
}

/// What carries frames to the collector. Nothing is assumed of how an
/// implementation behaves: every answer it may give is provided for.
pub trait Transport {
    /// Opens the connection; `false` where it cannot be opened.
    fn connect(&mut self) -> bool;

    /// Writes `frame` in full; `false` where the write fails.
    fn send(&mut self, frame: &[u8]) -> bool;

    /// Reads the reply to the frame just written; `None` where the read
    /// fails, times out, or the peer has closed the connection.
    fn receive(&mut self) -> Option<Vec<u8>>;
}

/// How far `action` is from the end of the attempt it belongs to.
pub open spec fn steps_left(action: ActionView) -> nat {
    match action {
        ActionView::Connect => 3,
        ActionView::Send(_) => 2,
        ActionView::AwaitResponse => 1,
        _ => 0,
    }
}

/// What holds of every flush of a queue that held `before`, whatever the
/// transport did: `after` and `result` are the end of some dialogue played
/// from the idle queue; no flush is left under way; what is left is the
/// old queue without some of its first frames.
pub open spec fn flush_outcome(
    before: Seq<Seq<u8>>,
    after: QueueState,
    result: Result<(), CollectorError>,
) -> bool {
    &&& exists|events: Seq<EventView>|
        {
            let played = #[trigger] run(QueueState::idle(before), events);
            &&& played.0 == after
            &&& played.1.len() > 0
            &&& played.1.last() == ActionView::Finished(result)
        }
    &&& after.phase == FlushPhase::Idle
    &&& exists|count: int| 0 <= count <= before.len() && after.frames == before.skip(count)
    &&& match result {
        Ok(_) => after.frames.len() == 0,
        Err(CollectorError::UnableToConnect) => after.frames == before,
        Err(_) => after.frames.len() > 0,
    }
}

/// The bytes of each frame, in order.
pub open spec fn contents(frames: Seq<Vec<u8>>) -> Seq<Seq<u8>> {
    Seq::new(frames.len(), |i: int| frames[i]@)
}

/// An ordered buffer of encoded frames awaiting delivery.
pub struct DeliveryQueue {
    frames: VecDeque<Vec<u8>>,
    phase: FlushPhase,
}

impl View for DeliveryQueue {
    type V = QueueState;

    closed spec fn view(&self) -> QueueState {
        QueueState { frames: contents(self.frames@), phase: self.phase }
    }
}

impl DeliveryQueue {
    /// An empty queue with no flush under way.
    pub fn new() -> (queue: Self)
        ensures
            queue@ == QueueState::idle(Seq::empty()),
    {
        let queue = DeliveryQueue { frames: VecDeque::with_capacity(120), phase: FlushPhase::Idle };
        assert(contents(queue.frames@) =~= Seq::<Seq<u8>>::empty());
        queue
    }

    /// Appends `frame` at the tail. The queue has no bound.
    pub fn enqueue(&mut self, frame: Vec<u8>)
        ensures
            final(self)@ == (QueueState {
                frames: old(self)@.frames.push(frame@),
                phase: old(self)@.phase,
            }),
    {
        self.frames.push_back(frame);
        assert(contents(self.frames@) =~= contents(old(self).frames@).push(frame@));
    }

    /// The number of frames waiting.
    pub fn len(&self) -> (n: usize)
        ensures
            n == self@.frames.len(),
    {
        self.frames.len()
    }

    /// Whether no frame is waiting.
    pub fn is_empty(&self) -> (empty: bool)
        ensures
            empty == (self@.frames.len() == 0),
    {
        self.frames.len() == 0
    }

    /// Where the flush stands.
    pub fn phase(&self) -> (phase: FlushPhase)
        ensures
            phase == self@.phase,
    {
        self.phase
    }

    /// The frame at position `index`, counted from the head.
    pub fn get(&self, index: usize) -> (frame: Option<&Vec<u8>>)
        ensures
            index < self@.frames.len() ==> frame is Some && frame->0@ == self@.frames[index as int],
            index >= self@.frames.len() ==> frame is None,
    {
        if index < self.frames.len() {
            Some(&self.frames[index])
        } else {
            None
        }
    }

    /// Takes `event` in and says what to do next.
    pub fn step(&mut self, event: FlushEvent) -> (action: FlushAction)
        ensures
            (final(self)@, action@) == step_spec(old(self)@, event@),
    {
        match (self.phase, event) {
            (FlushPhase::Idle, FlushEvent::Start) => {
                self.phase = FlushPhase::Connecting;
                FlushAction::Connect
            },
            (FlushPhase::Connecting, FlushEvent::Connected) => self.attempt_head(),
            (FlushPhase::Connecting, FlushEvent::ConnectFailed) => {
                self.phase = FlushPhase::Idle;
                FlushAction::Finished(Err(CollectorError::UnableToConnect))
            },
            (FlushPhase::Sending, FlushEvent::Written) => {
                self.phase = FlushPhase::AwaitingAck;
                FlushAction::AwaitResponse
            },
            (FlushPhase::Sending, FlushEvent::WriteFailed) => {
                self.phase = FlushPhase::Idle;
                FlushAction::Finished(Err(CollectorError::UnableToSend))
            },
            (FlushPhase::AwaitingAck, FlushEvent::Response(bytes)) => {
                self.phase = FlushPhase::Idle;
                if accepts(bytes.as_slice()) {
                    self.frames.pop_front();
                    assert(contents(self.frames@) =~= behind_head(contents(old(self).frames@)));
                    self.attempt_head()
                } else {
                    FlushAction::Finished(Err(CollectorError::UnableToReceive))
                }
            },
            (FlushPhase::AwaitingAck, FlushEvent::NoResponse) => {
                self.phase = FlushPhase::Idle;
                FlushAction::Finished(Err(CollectorError::UnableToReceive))
            },
            _ => FlushAction::Nothing,
        }
    }

    /// Flushes the queue over `transport`: opens one connection, then
    /// writes the head frame and waits for its acknowledgment, frame after
    /// frame, until the queue is empty or the transport fails. A dialogue
    /// left unfinished by the caller is given up first.
    ///
    /// Whatever the transport does, the result and the queue afterwards
    /// are those of a dialogue played from the idle queue; what is left is
    /// the old queue without some of its first frames; `Ok` leaves the
    /// queue empty, `UnableToConnect` leaves it as it was, and the other
    /// errors leave the frame that met them at the head.
    pub fn flush<T: Transport>(&mut self, transport: &mut T) -> (result: Result<
        (),
        CollectorError,
    >)
        ensures
            flush_outcome(old(self)@.frames, final(self)@, result),
    {
        let ghost before = old(self)@.frames;
        self.phase = FlushPhase::Idle;
        let ghost start = QueueState::idle(before);
        let ghost mut events = Seq::<EventView>::empty();
        let ghost mut delivered: int = 0;
        let mut action: FlushAction = self.step(FlushEvent::Start);
        proof {
            lemma_run_push(start, events, EventView::Start);
            events = events.push(EventView::Start);
            assert(before.skip(0) =~= before);
        }
        loop
            invariant
                before == old(self)@.frames,
                start == QueueState::idle(before),
                run(start, events).0 == self@,
                run(start, events).1.len() > 0,
                run(start, events).1.last() == action@,
                0 <= delivered <= before.len(),
                self@.frames == before.skip(delivered),
                match action@ {
                    ActionView::Connect => self@.phase is Connecting && delivered == 0,
                    ActionView::Send(_) => self@.phase is Sending && delivered < before.len(),
                    ActionView::AwaitResponse => self@.phase is AwaitingAck && delivered
                        < before.len(),
                    ActionView::Finished(outcome) => {
                        &&& self@.phase is Idle
                        &&& outcome is Ok ==> delivered == before.len()
                        &&& outcome == Err::<(), CollectorError>(
                            CollectorError::UnableToConnect,
                        ) ==> delivered == 0
                        &&& (outcome == Err::<(), CollectorError>(CollectorError::UnableToSend)
                            || outcome == Err::<(), CollectorError>(
                            CollectorError::UnableToReceive,
                        )) ==> delivered < before.len()
                    },
                    ActionView::Nothing => false,
                },
            decreases before.len() - delivered, steps_left(action@),
        {
            let event: FlushEvent = match action {
                FlushAction::Connect => {
                    if transport.connect() {
                        FlushEvent::Connected
                    } else {
                        FlushEvent::ConnectFailed
                    }
                },
                FlushAction::Send(frame) => {
                    if transport.send(frame.as_slice()) {
                        FlushEvent::Written
                    } else {
                        FlushEvent::WriteFailed
                    }
                },
                FlushAction::AwaitResponse => {
                    match transport.receive() {
                        Some(reply) => FlushEvent::Response(reply),
                        None => FlushEvent::NoResponse,
                    }
                },
                FlushAction::Finished(result) => {
                    proof {
                        let played = run(QueueState::idle(before), events);
                        assert(played.0 == self@ && played.1.last() == ActionView::Finished(
                            result,
                        ));
                        assert(before.skip(0) =~= before);
                        assert(self@.frames == before.skip(delivered));
                    }
                    return result;
                },
                FlushAction::Nothing => {
                    return Ok(());
                },
            };
            proof {
                lemma_run_push(start, events, event@);
                events = events.push(event@);
                if self@.phase is AwaitingAck && event@ is Response && is_accepting(
                    event@->Response_0,
                ) {
                    assert(behind_head(before.skip(delivered)) =~= before.skip(delivered + 1));
                    delivered = delivered + 1;
                }
            }
            action = self.step(event);
        }
    }

    /// Hands out the head frame, or ends the flush where the queue is empty.
    fn attempt_head(&mut self) -> (action: FlushAction)
        ensures
            (final(self)@, action@) == attempt(old(self)@.frames),
    {
        if self.frames.len() == 0 {
            self.phase = FlushPhase::Idle;
            FlushAction::Finished(Ok(()))
        } else {
            self.phase = FlushPhase::Sending;
            FlushAction::Send(copy_of(self.frames[0].as_slice()))
        }
    }
}

/// A dialogue played out: the state that `events`, taken in order from
/// `state`, lead to, and the actions that answered them.
pub open spec fn run(state: QueueState, events: Seq<EventView>) -> (QueueState, Seq<ActionView>)
    decreases events.len(),
{
    if events.len() == 0 {
        (state, Seq::empty())
    } else {
        let (before, actions) = run(state, events.drop_last());
        let (after, action) = step_spec(before, events.last());
        (after, actions.push(action))
    }
}

/// The frames that `actions` handed to the transport, in order.
pub open spec fn sent(actions: Seq<ActionView>) -> Seq<Seq<u8>>
    decreases actions.len(),
{
    if actions.len() == 0 {
        Seq::empty()
    } else {
        match actions.last() {
            ActionView::Send(frame) => sent(actions.drop_last()).push(frame),
            _ => sent(actions.drop_last()),
        }
    }
}

/// The events of a flush whose connection opens and whose first `count`
/// frames are written and acknowledged with `ack`.
pub open spec fn deliveries(count: nat, ack: Seq<u8>) -> Seq<EventView>
    decreases count,
{
    if count == 0 {
        seq![EventView::Start, EventView::Connected]
    } else {
        deliveries((count - 1) as nat, ack).push(EventView::Written).push(EventView::Response(ack))
    }
}

/// One more event at the end of a dialogue is one more step.
pub proof fn lemma_run_push(state: QueueState, events: Seq<EventView>, event: EventView)
    ensures
        run(state, events.push(event)) == ({
            let (before, actions) = run(state, events);
            let (after, action) = step_spec(before, event);
            (after, actions.push(action))
        }),
{
    assert(events.push(event).drop_last() =~= events);
}

/// One more action at the end of a trace adds its frame, if it sends one.
pub proof fn lemma_sent_push(actions: Seq<ActionView>, action: ActionView)
    ensures
        sent(actions.push(action)) == match action {
            ActionView::Send(frame) => sent(actions).push(frame),
            _ => sent(actions),
        },
{
    assert(actions.push(action).drop_last() =~= actions);
}

/// Head first, once each: after the connection has opened and `count`
/// frames were acknowledged, exactly those frames have left the queue, the
/// rest stands in its old order, and the frames handed to the transport
/// are the first of the queue, in order, up to the one now in flight. With
/// every frame acknowledged the flush has ended well.
pub proof fn lemma_flush_progress(frames: Seq<Seq<u8>>, count: nat, ack: Seq<u8>)
    requires
        count <= frames.len(),
        is_accepting(ack),
    ensures
        ({
            let (state, actions) = run(QueueState::idle(frames), deliveries(count, ack));
            &&& state.frames == frames.skip(count as int)
            &&& actions.len() > 0
            &&& count < frames.len() ==> {
                &&& state.phase == FlushPhase::Sending
                &&& actions.last() == ActionView::Send(frames[count as int])
                &&& sent(actions) == frames.take(count as int + 1)
            }
            &&& count == frames.len() ==> {
                &&& state.phase == FlushPhase::Idle
                &&& actions.last() == ActionView::Finished(Ok(()))
                &&& sent(actions) == frames
            }
        }),
    decreases count,
{
    let start = QueueState::idle(frames);
    if count == 0 {
        let none = Seq::<EventView>::empty();
        assert(deliveries(0, ack) =~= none.push(EventView::Start).push(EventView::Connected));
        lemma_run_push(start, none, EventView::Start);
        lemma_run_push(start, none.push(EventView::Start), EventView::Connected);
        let first = Seq::<ActionView>::empty().push(ActionView::Connect);
        assert(run(start, none.push(EventView::Start)) == (
            QueueState { frames, phase: FlushPhase::Connecting },
            first,
        ));
        let (state, actions) = run(start, deliveries(0, ack));
        lemma_sent_push(Seq::<ActionView>::empty(), ActionView::Connect);
        assert(sent(first) =~= Seq::<Seq<u8>>::empty());
        assert(frames.skip(0) =~= frames);
        if frames.len() > 0 {
            assert(actions == first.push(ActionView::Send(frames[0])));
            lemma_sent_push(first, ActionView::Send(frames[0]));
            assert(sent(actions) =~= frames.take(1));
        } else {
            assert(actions == first.push(ActionView::Finished(Ok(()))));
            lemma_sent_push(first, ActionView::Finished(Ok(())));
            assert(sent(actions) =~= frames);
        }
    } else {
        let earlier = (count - 1) as nat;
        lemma_flush_progress(frames, earlier, ack);
        let events = deliveries(earlier, ack);
        let (s0, a0) = run(start, events);
        lemma_run_push(start, events, EventView::Written);
        lemma_run_push(start, events.push(EventView::Written), EventView::Response(ack));
        let a1 = a0.push(ActionView::AwaitResponse);
        lemma_sent_push(a0, ActionView::AwaitResponse);
        let rest = frames.skip(count as int);
        assert(behind_head(s0.frames) =~= rest);
        let (state, actions) = run(start, deliveries(count, ack));
        assert(sent(a1) == frames.take(count as int));
        if count < frames.len() {
            assert(rest[0] == frames[count as int]);
            assert(actions == a1.push(ActionView::Send(frames[count as int])));
            lemma_sent_push(a1, ActionView::Send(frames[count as int]));
            assert(sent(actions) =~= frames.take(count as int + 1));
        } else {
            assert(actions == a1.push(ActionView::Finished(Ok(()))));
            lemma_sent_push(a1, ActionView::Finished(Ok(())));
            assert(frames.take(count as int) =~= frames);
        }
    }
}

/// No connection: the flush ends with `UnableToConnect`, nothing was handed
/// to the transport and the queue stands as it was.
pub proof fn lemma_connect_failure(frames: Seq<Seq<u8>>)
    ensures
        ({
            let (state, actions) = run(
                QueueState::idle(frames),
                seq![EventView::Start, EventView::ConnectFailed],
            );
            &&& state == QueueState::idle(frames)
            &&& actions.last() == ActionView::Finished(Err(CollectorError::UnableToConnect))
            &&& sent(actions) == Seq::<Seq<u8>>::empty()
        }),
{
    let start = QueueState::idle(frames);
    let none = Seq::<EventView>::empty();
    assert(seq![EventView::Start, EventView::ConnectFailed] =~= none.push(EventView::Start).push(
        EventView::ConnectFailed,
    ));
    lemma_run_push(start, none, EventView::Start);
    lemma_run_push(start, none.push(EventView::Start), EventView::ConnectFailed);
    let first = Seq::<ActionView>::empty().push(ActionView::Connect);
    lemma_sent_push(Seq::<ActionView>::empty(), ActionView::Connect);
    lemma_sent_push(first, ActionView::Finished(Err(CollectorError::UnableToConnect)));
}

/// Ordering under partial failure, at the write: where the transport takes
/// the first `count` frames and fails to write the next, the flush ends
/// with `UnableToSend` and the queue holds the rejected frame and all
/// behind it, in their old order.
pub proof fn lemma_write_failure(frames: Seq<Seq<u8>>, count: nat, ack: Seq<u8>)
    requires
        count < frames.len(),
        is_accepting(ack),
    ensures
        ({
            let (state, actions) = run(
                QueueState::idle(frames),
                deliveries(count, ack).push(EventView::WriteFailed),
            );
            &&& state == QueueState::idle(frames.skip(count as int))
            &&& actions.last() == ActionView::Finished(Err(CollectorError::UnableToSend))
            &&& sent(actions) == frames.take(count as int + 1)
        }),
{
    let start = QueueState::idle(frames);
    lemma_flush_progress(frames, count, ack);
    lemma_run_push(start, deliveries(count, ack), EventView::WriteFailed);
    let (s0, a0) = run(start, deliveries(count, ack));
    lemma_sent_push(a0, ActionView::Finished(Err(CollectorError::UnableToSend)));
}

/// Ordering under partial failure, at the acknowledgment: where the first
/// `count` frames are acknowledged and the next is written but its reply
/// is missing or does not accept it, the flush ends with `UnableToReceive`
/// and the queue holds that frame and all behind it, in their old order.
pub proof fn lemma_ack_failure(frames: Seq<Seq<u8>>, count: nat, ack: Seq<u8>, reply: EventView)
    requires
        count < frames.len(),
        is_accepting(ack),
        reply is NoResponse || (reply is Response && !is_accepting(reply->Response_0)),
    ensures
        ({
            let (state, actions) = run(
                QueueState::idle(frames),
                deliveries(count, ack).push(EventView::Written).push(reply),
            );
            &&& state == QueueState::idle(frames.skip(count as int))
            &&& actions.last() == ActionView::Finished(Err(CollectorError::UnableToReceive))
            &&& sent(actions) == frames.take(count as int + 1)
        }),
{
    let start = QueueState::idle(frames);
    let events = deliveries(count, ack);
    lemma_flush_progress(frames, count, ack);
    lemma_run_push(start, events, EventView::Written);
    lemma_run_push(start, events.push(EventView::Written), reply);
    let (s0, a0) = run(start, events);
    lemma_sent_push(a0, ActionView::AwaitResponse);
    lemma_sent_push(
        a0.push(ActionView::AwaitResponse),
        ActionView::Finished(Err(CollectorError::UnableToReceive)),
    );
}

/// No retransmission: a flush that follows a failed one, on the queue the
/// failure left, hands out only frames from the rejected one onward; the
/// `count` frames acknowledged before are not among what it sends.
pub proof fn lemma_retry_resumes(frames: Seq<Seq<u8>>, count: nat, again: nat, ack: Seq<u8>)
    requires
        count < frames.len(),
        again < frames.len() - count,
        is_accepting(ack),
    ensures
        ({
            let left = run(
                QueueState::idle(frames),
                deliveries(count, ack).push(EventView::WriteFailed),
            ).0;
            let (state, actions) = run(left, deliveries(again, ack));
            &&& left == QueueState::idle(frames.skip(count as int))
            &&& sent(actions) == frames.subrange(count as int, count as int + again as int + 1)
            &&& state.frames == frames.skip(count as int + again as int)
        }),
{
    lemma_write_failure(frames, count, ack);
    let rest = frames.skip(count as int);
    lemma_flush_progress(rest, again, ack);
    assert(rest.take(again as int + 1) =~= frames.subrange(count as int, count as int + again as int + 1));
    assert(rest.skip(again as int) =~= frames.skip(count as int + again as int));
}

} // verus!
