//! Captured events and the per-severity queue that holds them until they
//! are delivered.

use vstd::prelude::*;
use crate::level::Level;
use crate::logproto::EntryAdapter;
use crate::logproto::EntryModel;
use crate::logproto::StreamAdapter;
use crate::logproto::StreamModel;
use crate::logproto::Timestamp;

verus! {

/// What a [`LokiEvent`] holds, as mathematical values.
pub struct EventModel {
    pub trigger_send: bool,
    pub timestamp: Timestamp,
    pub level: Level,
    pub message: Seq<char>,
}

/// One captured log record.
#[derive(Debug)]
pub struct LokiEvent {
    /// Whether the arrival of this event asks for a send.
    pub trigger_send: bool,
    /// When the event was captured.
    pub timestamp: Timestamp,
    /// The severity, which selects the queue.
    pub level: Level,
    /// The line as it will be sent, rendered at capture time.
    pub message: String,
}

impl View for LokiEvent {
    type V = EventModel;

    open spec fn view(&self) -> EventModel {
        EventModel {
            trigger_send: self.trigger_send,
            timestamp: self.timestamp,
            level: self.level,
            message: self.message@,
        }
    }
}

/// The views of a sequence of events, one for one.
pub open spec fn events_view(events: Seq<LokiEvent>) -> Seq<EventModel> {
    Seq::new(events.len(), |i: int| events[i]@)
}

/// The entry under which an event is sent: its time and its line.
pub open spec fn entry_of(event: EventModel) -> EntryModel {
    EntryModel { timestamp: Some(event.timestamp), line: event.message }
}

/// The entries under which a sequence of events is sent, in the same order.
pub open spec fn entries_of(events: Seq<EventModel>) -> Seq<EntryModel> {
    Seq::new(events.len(), |i: int| entry_of(events[i]))
}

/// The stream that carries `events` under the selector `labels`.
pub open spec fn stream_of(labels: Seq<char>, events: Seq<EventModel>) -> StreamModel {
    StreamModel { labels, entries: entries_of(events), hash: 0 }
}

/// Whether one of `events` asks for a send.
pub open spec fn any_trigger(events: Seq<EventModel>) -> bool {
    exists|i: int| 0 <= i < events.len() && (#[trigger] events[i]).trigger_send
}

/// What a [`SendQueue`] holds, as mathematical values.
pub struct QueueModel {
    /// The label selector under which the queue's events are sent.
    pub labels: Seq<char>,
    /// The events that the outstanding request carries, oldest first.
    pub in_flight: Seq<EventModel>,
    /// The events that wait for the next request, oldest first.
    pub pending: Seq<EventModel>,
}

impl QueueModel {
    /// Everything the queue holds, in the order in which it is owed.
    pub open spec fn held(self) -> Seq<EventModel> {
        self.in_flight + self.pending
    }

    /// The queue after `event` has arrived.
    pub open spec fn pushed(self, event: EventModel) -> QueueModel {
        QueueModel { pending: self.pending.push(event), ..self }
    }

    /// The queue after its waiting events have gone in flight.
    pub open spec fn prepared(self) -> QueueModel {
        QueueModel { in_flight: self.pending, pending: Seq::empty(), ..self }
    }

    /// The queue after the request that carried its events has succeeded.
    pub open spec fn delivered(self) -> QueueModel {
        QueueModel { in_flight: Seq::empty(), ..self }
    }

    /// The queue after the request that carried its events has failed.
    pub open spec fn requeued(self) -> QueueModel {
        QueueModel { in_flight: Seq::empty(), pending: self.in_flight + self.pending, ..self }
    }

    /// The queue after everything in it has been given up.
    pub open spec fn emptied(self) -> QueueModel {
        QueueModel { in_flight: Seq::empty(), pending: Seq::empty(), ..self }
    }

    /// The stream that a request made now would carry for this queue.
    pub open spec fn stream(self) -> StreamModel {
        stream_of(self.labels, self.pending)
    }
}

/// The queue of one severity: the events that wait for the next request
/// and those that the outstanding request carries.
pub struct SendQueue {
    encoded_labels: String,
    sending: Vec<LokiEvent>,
    to_send: Vec<LokiEvent>,
}

impl View for SendQueue {
    type V = QueueModel;

    open spec fn view(&self) -> QueueModel {
        QueueModel { labels: self.labels(), in_flight: self.in_flight(), pending: self.pending() }
    }
}

impl SendQueue {
    /// The label selector under which this queue's events are sent.
    pub closed spec fn labels(&self) -> Seq<char> {
        self.encoded_labels@
    }

    /// The events that the outstanding request carries, oldest first.
    pub closed spec fn in_flight(&self) -> Seq<EventModel> {
        events_view(self.sending@)
    }

    /// The events that wait for the next request, oldest first.
    pub closed spec fn pending(&self) -> Seq<EventModel> {
        events_view(self.to_send@)
    }

    /// An empty queue that sends under `encoded_labels`.
    pub fn new(encoded_labels: String) -> (queue: SendQueue)
        ensures
            queue.labels() == encoded_labels@,
            queue.in_flight() == Seq::<EventModel>::empty(),
            queue.pending() == Seq::<EventModel>::empty(),
    {
        let queue = SendQueue { encoded_labels, sending: Vec::new(), to_send: Vec::new() };
        assert(queue.in_flight() =~= Seq::<EventModel>::empty());
        assert(queue.pending() =~= Seq::<EventModel>::empty());
        queue
    }

    /// Appends `event` to the events that wait.
    pub fn push(&mut self, event: LokiEvent)
        ensures
            final(self).pending() == old(self).pending().push(event@),
            final(self).in_flight() == old(self).in_flight(),
            final(self).labels() == old(self).labels(),
    {
        self.to_send.push(event);
        assert(self.pending() =~= old(self).pending().push(event@));
    }

    /// Forgets every event, waiting or in flight, and says how many there
    /// were.
    pub fn drop_outstanding(&mut self) -> (dropped: u128)
        ensures
            dropped == old(self).in_flight().len() + old(self).pending().len(),
            dropped <= 2 * usize::MAX,
            final(self).in_flight() == Seq::<EventModel>::empty(),
            final(self).pending() == Seq::<EventModel>::empty(),
            final(self).labels() == old(self).labels(),
    {
        let in_flight: u128 = self.sending.len() as u128;
        let pending: u128 = self.to_send.len() as u128;
        self.sending.clear();
        self.to_send.clear();
        assert(self.in_flight() =~= Seq::<EventModel>::empty());
        assert(self.pending() =~= Seq::<EventModel>::empty());
        in_flight + pending
    }

    /// Takes note of how the outstanding request ended. After a success the
    /// events it carried are gone; after a failure they wait again, ahead of
    /// those that arrived meanwhile.
    pub fn on_send_result(&mut self, result: Result<(), ()>)
        ensures
            final(self).in_flight() == Seq::<EventModel>::empty(),
            result.is_ok() ==> final(self).pending() == old(self).pending(),
            result.is_err() ==> final(self).pending() == old(self).in_flight() + old(
                self,
            ).pending(),
            final(self).labels() == old(self).labels(),
    {
        match result {
            Ok(()) => {
                self.sending.clear();
                assert(self.in_flight() =~= Seq::<EventModel>::empty());
            },
            Err(()) => {
                self.sending.append(&mut self.to_send);
                std::mem::swap(&mut self.sending, &mut self.to_send);
                assert(self.in_flight() =~= Seq::<EventModel>::empty());
                assert(self.pending() =~= old(self).in_flight() + old(self).pending());
            },
        }
    }

    /// Whether one of the waiting events asks for a send.
    pub fn should_send(&self) -> (wanted: bool)
        ensures
            wanted == any_trigger(self.pending()),
    {
        let mut i: usize = 0;
        while i < self.to_send.len()
            invariant
                i <= self.to_send@.len(),
                forall|j: int| 0 <= j < i ==> !(#[trigger] self.pending()[j]).trigger_send,
            decreases self.to_send@.len() - i,
        {
            if self.to_send[i].trigger_send {
                assert(self.pending()[i as int].trigger_send);
                return true;
            }
            i += 1;
        }
        false
    }

    /// Whether no event waits.
    pub fn is_idle(&self) -> (idle: bool)
        ensures
            idle == (self.pending().len() == 0),
    {
        self.to_send.is_empty()
    }

    /// The stream that a request made now would carry for this queue.
    pub fn pending_stream(&self) -> (stream: StreamAdapter)
        ensures
            stream@ == stream_of(self.labels(), self.pending()),
    {
        let mut entries: Vec<EntryAdapter> = Vec::new();
        let mut i: usize = 0;
        while i < self.to_send.len()
            invariant
                i <= self.to_send@.len(),
                entries@.len() == i,
                forall|j: int| 0 <= j < i ==> (#[trigger] entries@[j])@ == entry_of(self.to_send@[j]@),
            decreases self.to_send@.len() - i,
        {
            let event = &self.to_send[i];
            entries.push(
                EntryAdapter { timestamp: Some(event.timestamp), line: event.message.clone() },
            );
            i += 1;
        }
        let stream = StreamAdapter { labels: self.encoded_labels.clone(), entries, hash: 0 };
        assert(stream@.entries =~= entries_of(self.pending()));
        stream
    }

    /// Moves the waiting events in flight and returns the stream that
    /// carries them. No request may be outstanding.
    pub fn prepare_sending(&mut self) -> (stream: StreamAdapter)
        requires
            old(self).in_flight().len() == 0,
        ensures
            stream@ == stream_of(old(self).labels(), old(self).pending()),
            final(self).in_flight() == old(self).pending(),
            final(self).pending() == Seq::<EventModel>::empty(),
            final(self).labels() == old(self).labels(),
    {
        let stream = self.pending_stream();
        std::mem::swap(&mut self.sending, &mut self.to_send);
        assert(self.pending() =~= Seq::<EventModel>::empty());
        stream
    }
}

} // verus!
