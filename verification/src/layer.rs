//! The capturing side: what becomes of an application's event before it is
//! handed to the delivery task.

use vstd::prelude::*;
use crate::label_map::LabelMap;
use crate::labels::ValidatedLabel;
use crate::level::Level;
use crate::logproto::Timestamp;
use crate::queue::EventModel;
use crate::queue::LokiEvent;
use crate::text::starts_with;

verus! {

/// Events whose target begins with this come from the delivery task
/// itself.
pub const OWN_TARGET: &'static str = "tracing_loki";

/// Fields whose name begins with this were added by the `log` bridge and
/// are not sent.
pub const LOG_FIELD_PREFIX: &'static str = "log.";

/// Whether an event with this target asks for a send. The delivery task's
/// own events do not: reporting a failed send must not cause the next one.
pub open spec fn asks_for_send(target: Seq<char>) -> bool {
    !OWN_TARGET@.is_prefix_of(target)
}

/// Whether the field called `name` is left out of the line that is sent.
pub open spec fn is_stripped_field(name: Seq<char>) -> bool {
    LOG_FIELD_PREFIX@.is_prefix_of(name)
}

/// Whether the field called `name` is left out of the line that is sent.
pub fn strips_field(name: &str) -> (stripped: bool)
    ensures
        stripped == is_stripped_field(name@),
{
    starts_with(name, LOG_FIELD_PREFIX)
}

/// Whether the field called `name` is left out of the line that is sent:
/// one that the `log` bridge added, or one that became a label.
pub fn is_stripped(name: &str, keys: &LabelMap<ValidatedLabel>) -> (stripped: bool)
    requires
        keys.wf(),
    ensures
        stripped == (is_stripped_field(name@) || keys.contains_key(name@)),
{
    strips_field(name) || keys.get(name).is_some()
}

/// What the capturing side was configured with.
pub struct Layer {
    /// Fields that are added to every line, in the order in which they
    /// were set.
    pub extra_fields: Vec<(String, String)>,
    /// How many events the channel to the delivery task can hold.
    pub channel_cap: usize,
}

impl Layer {
    /// The event that is handed to the delivery task for what the
    /// application logged: `message` is the line as it will be sent.
    pub fn event(
        &self,
        target: &str,
        level: Level,
        timestamp: Timestamp,
        message: String,
    ) -> (event: LokiEvent)
        ensures
            event@ == (EventModel {
                trigger_send: asks_for_send(target@),
                timestamp,
                level,
                message: message@,
            }),
    {
        LokiEvent { trigger_send: !starts_with(target, OWN_TARGET), timestamp, level, message }
    }
}

} // verus!
