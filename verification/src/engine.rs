//! The delivery engine: which request to make next, and what a finished
//! request, an elapsed timer or a received event changes.
//!
//! The engine performs nothing itself. The task that owns it receives from
//! the channel, runs the timer and sends over HTTP; it tells the engine what
//! happened and asks it what to do.

use vstd::prelude::*;
use crate::backoff::Backoff;
use crate::backoff::delay_after;
use crate::backoff::is_long_outage;
use crate::buffer::Buffer;
use crate::buffer::compressible;
use crate::buffer::max_compress_len_of;
use crate::buffer::snappy_block;
use crate::labels::FormattedLabels;
use crate::labels::LabelsModel;
use crate::labels::selector_text;
use crate::level::Level;
use crate::level::LEVEL_COUNT;
use crate::level_map::LevelMap;
use crate::logproto::PushRequest;
use crate::logproto::StreamAdapter;
use crate::logproto::StreamModel;
use crate::queue::EventModel;
use crate::queue::LokiEvent;
use crate::queue::QueueModel;
use crate::queue::SendQueue;
use crate::queue::any_trigger;
use crate::wire::push_request_bytes;

verus! {

/// The views of the five queues, one for one.
pub open spec fn queues_view(queues: Seq<SendQueue>) -> Seq<QueueModel> {
    Seq::new(queues.len(), |i: int| queues[i]@)
}

/// How many events the first `count` queues hold, waiting or in flight.
pub open spec fn total_held(queues: Seq<QueueModel>, count: nat) -> nat
    decreases count,
{
    if count == 0 {
        0
    } else {
        total_held(queues, (count - 1) as nat) + queues[count - 1].held().len()
    }
}

/// The streams that a request made now would carry for the first `count`
/// queues: one for each queue in which events wait, in the order of the
/// severities.
pub open spec fn streams_of(queues: Seq<QueueModel>, count: nat) -> Seq<StreamModel>
    decreases count,
{
    if count == 0 {
        Seq::<StreamModel>::empty()
    } else if queues[count - 1].pending.len() == 0 {
        streams_of(queues, (count - 1) as nat)
    } else {
        streams_of(queues, (count - 1) as nat).push(queues[count - 1].stream())
    }
}

/// The state of the engine, as mathematical values.
pub struct EngineModel {
    /// The queues of the five severities, in their order.
    pub queues: Seq<QueueModel>,
    /// The configured delay before the first retry, in milliseconds.
    pub base_delay: nat,
    /// The number of sends that failed since the last success.
    pub failures: nat,
    /// Whether the backoff timer is running.
    pub backing_off: bool,
    /// Whether shutdown was asked for, or the channel is closed.
    pub quitting: bool,
    /// Whether a request is outstanding.
    pub sending: bool,
    /// Whether a request has failed since shutdown was asked for, with no
    /// success after it.
    pub drain_failed: bool,
}

impl EngineModel {
    /// There are five queues, and events are in flight only while a request
    /// is outstanding.
    pub open spec fn wf(self) -> bool {
        &&& self.queues.len() == LEVEL_COUNT
        &&& self.failures <= u32::MAX
        &&& self.base_delay <= u64::MAX
        &&& !self.sending ==> forall|i: int|
            0 <= i < self.queues.len() ==> (#[trigger] self.queues[i]).in_flight.len() == 0
    }

    /// Whether an event that asks for a send waits in some queue.
    pub open spec fn wants_send(self) -> bool {
        exists|i: int|
            0 <= i < self.queues.len() && any_trigger((#[trigger] self.queues[i]).pending)
    }

    /// Whether an event waits in some queue.
    pub open spec fn has_pending(self) -> bool {
        exists|i: int| 0 <= i < self.queues.len() && (#[trigger] self.queues[i]).pending.len() > 0
    }

    /// Whether a request may be made now: none is outstanding, no backoff
    /// timer is running, and an event asks for it; once shutdown is asked
    /// for, every waiting event is a reason to send.
    pub open spec fn may_send(self) -> bool {
        !self.sending && !self.backing_off && (self.wants_send() || (self.quitting
            && self.has_pending()))
    }

    /// The streams that a request made now would carry.
    pub open spec fn request_streams(self) -> Seq<StreamModel> {
        streams_of(self.queues, self.queues.len())
    }

    /// How many events the engine holds, waiting or in flight.
    pub open spec fn held_count(self) -> nat {
        total_held(self.queues, self.queues.len())
    }

    /// Whether the engine has finished: shutdown was asked for, no request
    /// is outstanding, no timer is running and no event waits.
    pub open spec fn done(self) -> bool {
        self.quitting && !self.sending && !self.backing_off && !self.has_pending()
    }

    /// The state after `event` has been received.
    pub open spec fn received(self, event: EventModel) -> EngineModel {
        let i = event.level.spec_index();
        EngineModel { queues: self.queues.update(i, self.queues[i].pushed(event)), ..self }
    }

    /// The state after the close signal or the channel's end was seen.
    pub open spec fn closed(self) -> EngineModel {
        EngineModel { quitting: true, ..self }
    }

    /// The state after the backoff timer has run out.
    pub open spec fn timer_elapsed(self) -> EngineModel {
        EngineModel { backing_off: false, ..self }
    }

    /// The state after the waiting events have gone into a request.
    pub open spec fn requested(self) -> EngineModel {
        EngineModel {
            queues: Seq::new(self.queues.len(), |i: int| self.queues[i].prepared()),
            sending: true,
            ..self
        }
    }

    /// The state after the outstanding request has succeeded.
    pub open spec fn send_succeeded(self) -> EngineModel {
        EngineModel {
            queues: Seq::new(self.queues.len(), |i: int| self.queues[i].delivered()),
            failures: 0,
            sending: false,
            drain_failed: false,
            ..self
        }
    }

    /// The number of consecutive failures once one more is counted.
    pub open spec fn next_failures(self) -> nat {
        if self.failures < u32::MAX {
            self.failures + 1
        } else {
            self.failures
        }
    }

    /// Whether one more failure gives up what is held: where it makes the
    /// outage a long one, and where shutdown was asked for and a request
    /// has failed since, so that this one was the retry.
    pub open spec fn next_failure_drops(self) -> bool {
        is_long_outage(self.base_delay, self.next_failures()) || (self.quitting
            && self.drain_failed)
    }

    /// The state after the outstanding request has failed: what it carried
    /// waits again, or everything is given up; the backoff timer runs.
    pub open spec fn send_failed(self) -> EngineModel {
        EngineModel {
            queues: Seq::new(
                self.queues.len(),
                |i: int|
                    if self.next_failure_drops() {
                        self.queues[i].emptied()
                    } else {
                        self.queues[i].requeued()
                    },
            ),
            failures: self.next_failures(),
            backing_off: true,
            sending: false,
            drain_failed: self.quitting,
            ..self
        }
    }
}

/// What the channel handed over.
#[derive(Debug)]
pub enum Received {
    /// A captured event.
    Event(LokiEvent),
    /// The signal to shut down.
    Close,
    /// The end of the channel: every sender is gone.
    Disconnected,
}

/// How a finished request is answered.
#[derive(Clone, Copy, Debug, PartialEq, Eq, Structural)]
pub enum SendOutcome {
    /// The request succeeded and what it carried is delivered.
    Delivered,
    /// The request failed. The backoff timer is to run for `delay_ms`
    /// milliseconds before anything is sent again.
    Failed {
        /// How many sends have failed in a row, this one included.
        attempt: u32,
        /// How long the backoff timer is to run, in milliseconds.
        delay_ms: u64,
        /// How many events were given up, where they were: because the
        /// outage is long, or because shutdown was asked for and this was
        /// already the retry of a failed request.
        dropped: Option<u128>,
    },
}

/// What to do next.
#[derive(Debug)]
pub enum Request {
    /// Nothing is to be sent now.
    Nothing,
    /// A request with this body is to be sent.
    Body(Vec<u8>),
    /// The waiting events do not fit into one request. Nothing has changed.
    TooLarge,
}

/// Where the engine stands.
#[derive(Clone, Copy, Debug, PartialEq, Eq, Structural)]
pub enum EngineState {
    /// No request is outstanding and no timer is running.
    Idle,
    /// A request is outstanding.
    Sending,
    /// The backoff timer is running after a failure.
    Backoff,
    /// Shutdown was asked for and there is still something to finish.
    Draining,
    /// Shutdown was asked for and nothing is left to do.
    Done,
}

/// The buffers, the backoff and the flags of the delivery task.
pub struct DeliveryEngine {
    queues: LevelMap<SendQueue>,
    buffer: Buffer,
    backoff: Backoff,
    backing_off: bool,
    quitting: bool,
    sending: bool,
    drain_failed: bool,
}

impl View for DeliveryEngine {
    type V = EngineModel;

    closed spec fn view(&self) -> EngineModel {
        EngineModel {
            queues: queues_view(self.queues@),
            base_delay: self.backoff.base(),
            failures: self.backoff.failures(),
            backing_off: self.backing_off,
            quitting: self.quitting,
            sending: self.sending,
            drain_failed: self.drain_failed,
        }
    }
}

/// Tells every queue how the outstanding request ended.
fn settle_queues(queues: &mut LevelMap<SendQueue>, result: Result<(), ()>)
    ensures
        final(queues)@.len() == LEVEL_COUNT,
        result.is_ok() ==> queues_view(final(queues)@) == Seq::new(
            LEVEL_COUNT as nat,
            |i: int| queues_view(old(queues)@)[i].delivered(),
        ),
        result.is_err() ==> queues_view(final(queues)@) == Seq::new(
            LEVEL_COUNT as nat,
            |i: int| queues_view(old(queues)@)[i].requeued(),
        ),
{
    proof {
        queues.lemma_len();
    }
    let mut i: usize = 0;
    while i < LEVEL_COUNT
        invariant
            i <= LEVEL_COUNT,
            queues@.len() == LEVEL_COUNT,
            old(queues)@.len() == LEVEL_COUNT,
            forall|j: int|
                0 <= j < i && result.is_ok() ==> (#[trigger] queues@[j])@ == old(
                    queues,
                )@[j]@.delivered(),
            forall|j: int|
                0 <= j < i && result.is_err() ==> (#[trigger] queues@[j])@ == old(
                    queues,
                )@[j]@.requeued(),
            forall|j: int| i <= j < LEVEL_COUNT ==> (#[trigger] queues@[j]) == old(queues)@[j],
        decreases LEVEL_COUNT - i,
    {
        let level = Level::from_index(i).unwrap();
        proof {
            crate::level::lemma_from_index_round_trip(i as int);
        }
        let queue = queues.get_mut(level);
        queue.on_send_result(result);
        proof {
            queues.lemma_len();
        }
        i += 1;
    }
    proof {
        if result.is_ok() {
            assert(queues_view(queues@) =~= Seq::new(
                LEVEL_COUNT as nat,
                |i: int| queues_view(old(queues)@)[i].delivered(),
            ));
        } else {
            assert(queues_view(queues@) =~= Seq::new(
                LEVEL_COUNT as nat,
                |i: int| queues_view(old(queues)@)[i].requeued(),
            ));
        }
    }
}

/// Empties every queue and says how many events were given up.
fn drop_queues(queues: &mut LevelMap<SendQueue>) -> (dropped: u128)
    ensures
        final(queues)@.len() == LEVEL_COUNT,
        dropped == total_held(queues_view(old(queues)@), LEVEL_COUNT as nat),
        queues_view(final(queues)@) == Seq::new(
            LEVEL_COUNT as nat,
            |i: int| queues_view(old(queues)@)[i].emptied(),
        ),
{
    proof {
        queues.lemma_len();
    }
    let mut dropped: u128 = 0;
    let mut i: usize = 0;
    while i < LEVEL_COUNT
        invariant
            i <= LEVEL_COUNT,
            queues@.len() == LEVEL_COUNT,
            old(queues)@.len() == LEVEL_COUNT,
            dropped == total_held(queues_view(old(queues)@), i as nat),
            dropped <= 2 * i * usize::MAX,
            forall|j: int| 0 <= j < i ==> (#[trigger] queues@[j])@ == old(queues)@[j]@.emptied(),
            forall|j: int| i <= j < LEVEL_COUNT ==> (#[trigger] queues@[j]) == old(queues)@[j],
        decreases LEVEL_COUNT - i,
    {
        let level = Level::from_index(i).unwrap();
        proof {
            crate::level::lemma_from_index_round_trip(i as int);
        }
        let queue = queues.get_mut(level);
        let count = queue.drop_outstanding();
        proof {
            queues.lemma_len();
            assert(2 * i * usize::MAX + 2 * usize::MAX == 2 * (i + 1) * usize::MAX)
                by (nonlinear_arith);
            assert(2 * (i + 1) * usize::MAX <= 10 * usize::MAX) by (nonlinear_arith)
                requires
                    i + 1 <= 5,
            ;
        }
        dropped = dropped + count;
        i += 1;
    }
    proof {
        assert(queues_view(queues@) =~= Seq::new(
            LEVEL_COUNT as nat,
            |i: int| queues_view(old(queues)@)[i].emptied(),
        ));
    }
    dropped
}

/// Moves the waiting events of every queue in flight.
fn prepare_queues(queues: &mut LevelMap<SendQueue>)
    requires
        forall|i: int|
            0 <= i < old(queues)@.len() ==> (#[trigger] old(queues)@[i]).in_flight().len() == 0,
    ensures
        final(queues)@.len() == LEVEL_COUNT,
        queues_view(final(queues)@) == Seq::new(
            LEVEL_COUNT as nat,
            |i: int| queues_view(old(queues)@)[i].prepared(),
        ),
{
    proof {
        queues.lemma_len();
    }
    let mut i: usize = 0;
    while i < LEVEL_COUNT
        invariant
            i <= LEVEL_COUNT,
            queues@.len() == LEVEL_COUNT,
            old(queues)@.len() == LEVEL_COUNT,
            forall|j: int| 0 <= j < i ==> (#[trigger] queues@[j])@ == old(queues)@[j]@.prepared(),
            forall|j: int| i <= j < LEVEL_COUNT ==> (#[trigger] queues@[j]) == old(queues)@[j],
            forall|j: int|
                0 <= j < old(queues)@.len() ==> (#[trigger] old(queues)@[j]).in_flight().len()
                    == 0,
        decreases LEVEL_COUNT - i,
    {
        let level = Level::from_index(i).unwrap();
        proof {
            crate::level::lemma_from_index_round_trip(i as int);
        }
        let queue = queues.get_mut(level);
        let _ = queue.prepare_sending();
        proof {
            queues.lemma_len();
        }
        i += 1;
    }
    proof {
        assert(queues_view(queues@) =~= Seq::new(
            LEVEL_COUNT as nat,
            |i: int| queues_view(old(queues)@)[i].prepared(),
        ));
    }
}

/// The queue of `level` before any event has arrived.
pub open spec fn fresh_queue(labels: LabelsModel, level: Level) -> QueueModel {
    QueueModel {
        labels: selector_text(labels, level),
        in_flight: Seq::empty(),
        pending: Seq::empty(),
    }
}

/// The engine before anything has happened.
pub open spec fn fresh_engine(labels: LabelsModel, base_delay_ms: u64) -> EngineModel {
    EngineModel {
        queues: Seq::new(
            LEVEL_COUNT as nat,
            |i: int| fresh_queue(labels, Level::spec_from_index(i)),
        ),
        base_delay: base_delay_ms as nat,
        failures: 0,
        backing_off: false,
        quitting: false,
        sending: false,
        drain_failed: false,
    }
}

impl DeliveryEngine {
    /// An engine that holds nothing, sends each severity under `labels`
    /// and the label of that severity, and waits `base_delay_ms`
    /// milliseconds after a first failure.
    pub fn new(labels: &FormattedLabels, base_delay_ms: u64) -> (engine: DeliveryEngine)
        ensures
            engine@.wf(),
            engine@ == fresh_engine(labels@, base_delay_ms),
    {
        let make_queue = |level: Level| -> (queue: SendQueue)
            ensures
                queue@ == fresh_queue(labels@, level),
            {
                let selector = labels.finish(level);
                SendQueue::new(selector)
            };
        let queues = LevelMap::from_fn(make_queue);
        let engine = DeliveryEngine {
            queues,
            buffer: Buffer::new(),
            backoff: Backoff::new(base_delay_ms),
            backing_off: false,
            quitting: false,
            sending: false,
            drain_failed: false,
        };
        proof {
            assert forall|i: int| 0 <= i < LEVEL_COUNT implies (#[trigger] engine@.queues[i])
                == fresh_queue(labels@, Level::spec_from_index(i)) by {
                crate::level::lemma_from_index_round_trip(i);
                let level = Level::spec_from_index(i);
                assert(engine.queues.spec_get(level)@ == fresh_queue(labels@, level));
            }
            assert(engine@.queues =~= Seq::new(
                LEVEL_COUNT as nat,
                |i: int| fresh_queue(labels@, Level::spec_from_index(i)),
            ));
        }
        engine
    }

    /// Takes in what the channel handed over: an event goes to the end of
    /// its severity's queue; the close signal and the channel's end ask for
    /// shutdown.
    pub fn receive(&mut self, item: Received)
        requires
            old(self)@.wf(),
        ensures
            final(self)@.wf(),
            final(self)@ == match item {
                Received::Event(event) => old(self)@.received(event@),
                Received::Close => old(self)@.closed(),
                Received::Disconnected => old(self)@.closed(),
            },
    {
        match item {
            Received::Event(event) => {
                let ghost model = event@;
                let level = event.level;
                let queue = self.queues.get_mut(level);
                queue.push(event);
                proof {
                    let i = level.spec_index();
                    assert(self@.queues =~= old(self)@.queues.update(
                        i,
                        old(self)@.queues[i].pushed(model),
                    ));
                }
            },
            Received::Close => {
                self.quitting = true;
            },
            Received::Disconnected => {
                self.quitting = true;
            },
        }
    }

    /// Takes note that the backoff timer has run out.
    pub fn timer_elapsed(&mut self)
        requires
            old(self)@.wf(),
        ensures
            final(self)@.wf(),
            final(self)@ == old(self)@.timer_elapsed(),
    {
        self.backing_off = false;
    }

    /// Takes note of how the outstanding request ended.
    ///
    /// After a success what the request carried is gone and the failures
    /// are forgotten. After a failure what it carried waits again, ahead of
    /// what arrived meanwhile, one more failure is counted and the backoff
    /// timer is to run. Every event, waiting or in flight, is given up
    /// instead, and the outcome says how many there were, where that
    /// failure makes the outage a long one, and where shutdown was asked
    /// for and this was already the retry of a failed request.
    pub fn send_finished(&mut self, result: Result<(), ()>) -> (outcome: SendOutcome)
        requires
            old(self)@.wf(),
        ensures
            final(self)@.wf(),
            result.is_ok() ==> final(self)@ == old(self)@.send_succeeded() && outcome
                == SendOutcome::Delivered,
            result.is_err() ==> final(self)@ == old(self)@.send_failed() && outcome == (
            SendOutcome::Failed {
                attempt: old(self)@.next_failures() as u32,
                delay_ms: delay_after(old(self)@.base_delay, old(self)@.next_failures()) as u64,
                dropped: if old(self)@.next_failure_drops() {
                    Some(old(self)@.held_count() as u128)
                } else {
                    None
                },
            }),
    {
        let ghost before = self@;
        settle_queues(&mut self.queues, result);
        self.sending = false;
        match result {
            Ok(()) => {
                self.backoff.record_success();
                self.drain_failed = false;
                assert(self@.queues =~= before.send_succeeded().queues);
                SendOutcome::Delivered
            },
            Err(()) => {
                let retry = self.backoff.record_failure();
                self.backing_off = true;
                let give_up = retry.drop_outstanding || (self.quitting && self.drain_failed);
                self.drain_failed = self.quitting;
                let ghost requeued = self@.queues;
                let dropped = if give_up {
                    let count = drop_queues(&mut self.queues);
                    proof {
                        lemma_requeue_keeps_count(before.queues, requeued, LEVEL_COUNT as nat);
                    }
                    Some(count)
                } else {
                    None
                };
                assert(self@.queues =~= before.send_failed().queues);
                SendOutcome::Failed { attempt: retry.attempt, delay_ms: retry.delay_ms, dropped }
            },
        }
    }

    /// Whether an event that asks for a send waits in some queue.
    pub fn wants_send(&self) -> (wanted: bool)
        requires
            self@.wf(),
        ensures
            wanted == self@.wants_send(),
    {
        proof {
            self.queues.lemma_len();
        }
        let mut i: usize = 0;
        while i < LEVEL_COUNT
            invariant
                i <= LEVEL_COUNT,
                self.queues@.len() == LEVEL_COUNT,
                forall|j: int| 0 <= j < i ==> !any_trigger((#[trigger] self@.queues[j]).pending),
            decreases LEVEL_COUNT - i,
        {
            let level = Level::from_index(i).unwrap();
            if self.queues.get(level).should_send() {
                assert(any_trigger(self@.queues[i as int].pending));
                return true;
            }
            i += 1;
        }
        false
    }

    /// Whether an event waits in some queue.
    pub fn has_pending(&self) -> (waiting: bool)
        requires
            self@.wf(),
        ensures
            waiting == self@.has_pending(),
    {
        proof {
            self.queues.lemma_len();
        }
        let mut i: usize = 0;
        while i < LEVEL_COUNT
            invariant
                i <= LEVEL_COUNT,
                self.queues@.len() == LEVEL_COUNT,
                forall|j: int| 0 <= j < i ==> (#[trigger] self@.queues[j]).pending.len() == 0,
            decreases LEVEL_COUNT - i,
        {
            let level = Level::from_index(i).unwrap();
            if !self.queues.get(level).is_idle() {
                assert(self@.queues[i as int].pending.len() > 0);
                return true;
            }
            i += 1;
        }
        false
    }

    /// The request that would be made now: a stream for each severity in
    /// whose queue events wait, from `Trace` to `Error`.
    pub fn pending_request(&self) -> (message: PushRequest)
        requires
            self@.wf(),
        ensures
            message@ == self@.request_streams(),
    {
        proof {
            self.queues.lemma_len();
        }
        let mut streams: Vec<StreamAdapter> = Vec::new();
        let mut i: usize = 0;
        while i < LEVEL_COUNT
            invariant
                i <= LEVEL_COUNT,
                self.queues@.len() == LEVEL_COUNT,
                crate::logproto::streams_view(streams@) == streams_of(self@.queues, i as nat),
            decreases LEVEL_COUNT - i,
        {
            let level = Level::from_index(i).unwrap();
            let queue = self.queues.get(level);
            if !queue.is_idle() {
                let stream = queue.pending_stream();
                let ghost prior = streams@;
                streams.push(stream);
                assert(crate::logproto::streams_view(streams@) =~= crate::logproto::streams_view(
                    prior,
                ).push(stream@));
            }
            i += 1;
        }
        PushRequest { streams }
    }

    /// Says what to send now, if anything.
    ///
    /// A request is made where none is outstanding, no backoff timer is
    /// running and an event that asks for a send waits; once shutdown is
    /// asked for, any waiting event will do. The request carries every
    /// waiting event of every severity, and all of them go in flight. Where
    /// they do not fit into one request, nothing changes.
    pub fn next_request(&mut self) -> (request: Request)
        requires
            old(self)@.wf(),
        ensures
            final(self)@.wf(),
            !old(self)@.may_send() ==> final(self)@ == old(self)@,
            !old(self)@.may_send() ==> (request matches Request::Nothing),
            old(self)@.may_send() && compressible(
                push_request_bytes(old(self)@.request_streams()).len(),
            ) ==> final(self)@ == old(self)@.requested(),
            old(self)@.may_send() && compressible(
                push_request_bytes(old(self)@.request_streams()).len(),
            ) ==> (request matches Request::Body(body) && body@ == snappy_block(
                push_request_bytes(old(self)@.request_streams()),
            ) && 1 <= body@.len() <= max_compress_len_of(
                push_request_bytes(old(self)@.request_streams()).len(),
            )),
            old(self)@.may_send() && !compressible(
                push_request_bytes(old(self)@.request_streams()).len(),
            ) ==> final(self)@ == old(self)@,
            old(self)@.may_send() && !compressible(
                push_request_bytes(old(self)@.request_streams()).len(),
            ) ==> (request matches Request::TooLarge),
    {
        if self.sending || self.backing_off {
            return Request::Nothing;
        }
        if !self.wants_send() && !(self.quitting && self.has_pending()) {
            return Request::Nothing;
        }
        let message = self.pending_request();
        let body = match self.buffer.try_encode(&message) {
            Some(bytes) => vstd::slice::slice_to_vec(bytes),
            None => {
                return Request::TooLarge;
            },
        };
        proof {
            assert forall|i: int| 0 <= i < self.queues@.len() implies (#[trigger] self.queues@[i])
                .in_flight().len() == 0 by {
                assert(self@.queues[i].in_flight.len() == 0);
            }
        }
        prepare_queues(&mut self.queues);
        self.sending = true;
        assert(self@.queues =~= old(self)@.requested().queues);
        Request::Body(body)
    }

    /// Whether the engine has finished: shutdown was asked for, no request
    /// is outstanding, no backoff timer is running and no event waits.
    pub fn is_done(&self) -> (done: bool)
        requires
            self@.wf(),
        ensures
            done == self@.done(),
    {
        self.quitting && !self.sending && !self.backing_off && !self.has_pending()
    }

    /// Where the engine stands.
    pub fn state(&self) -> (state: EngineState)
        requires
            self@.wf(),
        ensures
            state == spec_state(self@),
    {
        if self.quitting {
            if self.is_done() {
                EngineState::Done
            } else {
                EngineState::Draining
            }
        } else if self.sending {
            EngineState::Sending
        } else if self.backing_off {
            EngineState::Backoff
        } else {
            EngineState::Idle
        }
    }
}

/// Where an engine in state `model` stands.
pub open spec fn spec_state(model: EngineModel) -> EngineState {
    if model.done() {
        EngineState::Done
    } else if model.quitting {
        EngineState::Draining
    } else if model.sending {
        EngineState::Sending
    } else if model.backing_off {
        EngineState::Backoff
    } else {
        EngineState::Idle
    }
}

/// Putting back what was in flight changes no queue's count of events.
pub proof fn lemma_requeue_keeps_count(before: Seq<QueueModel>, after: Seq<QueueModel>, count: nat)
    requires
        count <= before.len(),
        after.len() == before.len(),
        forall|i: int| 0 <= i < count ==> (#[trigger] after[i]) == before[i].requeued(),
    ensures
        total_held(after, count) == total_held(before, count),
    decreases count,
{
    if count > 0 {
        lemma_requeue_keeps_count(before, after, (count - 1) as nat);
        assert(after[count - 1] == before[count - 1].requeued());
        assert(after[count - 1].held() =~= before[count - 1].held());
    }
}

} // verus!
