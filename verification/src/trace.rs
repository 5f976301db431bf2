//! What holds of every run of the delivery engine.
//!
//! A run is a sequence of steps: what the channel handed over, what the
//! timer and the outstanding request reported, and the moments at which the
//! engine was asked for the next request.

use vstd::prelude::*;
use crate::backoff::MAX_DELAY_MS;
use crate::backoff::delay_after;
use crate::backoff::is_long_outage;
use crate::backoff::lemma_delay_monotonic;
use crate::buffer::compressible;
use crate::engine::EngineModel;
use crate::level::Level;
use crate::level::LEVEL_COUNT;
use crate::queue::EventModel;
use crate::queue::any_trigger;
use crate::wire::push_request_bytes;

verus! {

/// One thing that happens to the engine.
pub enum Step {
    /// An event is received.
    Receive(EventModel),
    /// The close signal is received, or the channel ends.
    Close,
    /// The backoff timer runs out.
    TimerElapsed,
    /// The engine is asked for the next request.
    Request,
    /// The outstanding request succeeds.
    SendSucceeded,
    /// The outstanding request fails.
    SendFailed,
}

/// Whether asking for the next request in `model` yields one.
pub open spec fn issues_request(model: EngineModel) -> bool {
    model.may_send() && compressible(push_request_bytes(model.request_streams()).len())
}

/// The state that follows `model` by `step`.
pub open spec fn after_step(model: EngineModel, step: Step) -> EngineModel {
    match step {
        Step::Receive(event) => model.received(event),
        Step::Close => model.closed(),
        Step::TimerElapsed => model.timer_elapsed(),
        Step::Request => if issues_request(model) {
            model.requested()
        } else {
            model
        },
        Step::SendSucceeded => model.send_succeeded(),
        Step::SendFailed => model.send_failed(),
    }
}

/// The state that follows `model` by all of `steps`, in order.
pub open spec fn after_steps(model: EngineModel, steps: Seq<Step>) -> EngineModel
    decreases steps.len(),
{
    if steps.len() == 0 {
        model
    } else {
        after_step(after_steps(model, steps.drop_last()), steps.last())
    }
}

/// The events of severity `level` that `steps` submit, in order.
pub open spec fn submitted(steps: Seq<Step>, level: Level) -> Seq<EventModel>
    decreases steps.len(),
{
    if steps.len() == 0 {
        Seq::<EventModel>::empty()
    } else {
        let earlier = submitted(steps.drop_last(), level);
        match steps.last() {
            Step::Receive(event) => if event.level == level {
                earlier.push(event)
            } else {
                earlier
            },
            _ => earlier,
        }
    }
}

/// The events of severity `level` that are delivered in the course of
/// `steps`, in order: with each success, those that the request carried.
pub open spec fn delivered(model: EngineModel, steps: Seq<Step>, level: Level) -> Seq<EventModel>
    decreases steps.len(),
{
    if steps.len() == 0 {
        Seq::<EventModel>::empty()
    } else {
        let earlier = delivered(model, steps.drop_last(), level);
        match steps.last() {
            Step::SendSucceeded => earlier + after_steps(
                model,
                steps.drop_last(),
            ).queues[level.spec_index()].in_flight,
            _ => earlier,
        }
    }
}

/// Whether every request that ends in the course of `steps` succeeds.
pub open spec fn all_sends_succeed(steps: Seq<Step>) -> bool {
    forall|i: int| 0 <= i < steps.len() ==> !((#[trigger] steps[i]) is SendFailed)
}

/// Whether no queue of `model` holds an event.
pub open spec fn holds_nothing(model: EngineModel) -> bool {
    forall|i: int|
        0 <= i < model.queues.len() ==> (#[trigger] model.queues[i]).held()
            == Seq::<EventModel>::empty()
}

/// Whether no event waits in any queue of `model`.
pub open spec fn nothing_pending(model: EngineModel) -> bool {
    forall|i: int| 0 <= i < model.queues.len() ==> (#[trigger] model.queues[i]).pending.len() == 0
}

/// Every step keeps the engine well formed.
pub proof fn lemma_step_keeps_wf(model: EngineModel, step: Step)
    requires
        model.wf(),
    ensures
        after_step(model, step).wf(),
{
    let next = after_step(model, step);
    match step {
        Step::Receive(event) => {
            crate::level::lemma_index_round_trip(event.level);
        },
        _ => {},
    }
    if !next.sending {
        assert forall|i: int| 0 <= i < next.queues.len() implies (#[trigger] next.queues[i])
            .in_flight.len() == 0 by {
            if !model.sending {
                assert(model.queues[i].in_flight.len() == 0);
            }
        }
    }
}

/// Every run keeps the engine well formed.
pub proof fn lemma_steps_keep_wf(model: EngineModel, steps: Seq<Step>)
    requires
        model.wf(),
    ensures
        after_steps(model, steps).wf(),
    decreases steps.len(),
{
    if steps.len() > 0 {
        lemma_steps_keep_wf(model, steps.drop_last());
        lemma_step_keeps_wf(after_steps(model, steps.drop_last()), steps.last());
    }
}

/// While every send succeeds, each severity's events are delivered in the
/// order in which they were submitted, none twice and none left out: what
/// was delivered, followed by what the engine still holds, is what it held
/// at first followed by what was submitted.
pub proof fn lemma_delivery_in_order(model: EngineModel, steps: Seq<Step>, level: Level)
    requires
        model.wf(),
        all_sends_succeed(steps),
    ensures
        delivered(model, steps, level) + after_steps(model, steps).queues[level.spec_index()].held()
            == model.queues[level.spec_index()].held() + submitted(steps, level),
    decreases steps.len(),
{
    let i = level.spec_index();
    crate::level::lemma_index_round_trip(level);
    if steps.len() == 0 {
        assert(delivered(model, steps, level) + model.queues[i].held() =~= model.queues[i].held()
            + submitted(steps, level));
    } else {
        let earlier = steps.drop_last();
        assert(all_sends_succeed(earlier)) by {
            assert forall|k: int| 0 <= k < earlier.len() implies !((#[trigger] earlier[k])
                is SendFailed) by {
                assert(earlier[k] == steps[k]);
            }
        }
        lemma_delivery_in_order(model, earlier, level);
        lemma_steps_keep_wf(model, earlier);
        let before = after_steps(model, earlier);
        let after = after_steps(model, steps);
        let step = steps.last();
        assert(!(steps[steps.len() - 1] is SendFailed));
        let d0 = delivered(model, earlier, level);
        let s0 = submitted(earlier, level);
        let held0 = model.queues[i].held();
        let h0 = before.queues[i].held();
        let d1 = delivered(model, steps, level);
        let s1 = submitted(steps, level);
        let h1 = after.queues[i].held();
        assert(d0 + h0 == held0 + s0);
        assert(before.queues.len() == LEVEL_COUNT);
        match step {
            Step::Receive(event) => {
                crate::level::lemma_index_round_trip(event.level);
                assert(d1 == d0);
                if event.level == level {
                    assert(s1 == s0.push(event));
                    assert(h1 =~= h0.push(event));
                    assert(d1 + h1 =~= (d0 + h0).push(event));
                    assert(held0 + s1 =~= (held0 + s0).push(event));
                } else {
                    assert(event.level.spec_index() != i);
                    assert(after.queues[i] == before.queues[i]);
                    assert(s1 == s0);
                }
            },
            Step::Close => {
                assert(d1 == d0 && s1 == s0 && h1 == h0);
            },
            Step::TimerElapsed => {
                assert(d1 == d0 && s1 == s0 && h1 == h0);
            },
            Step::Request => {
                assert(d1 == d0 && s1 == s0);
                if issues_request(before) {
                    assert(before.queues[i].in_flight.len() == 0);
                    assert(h1 =~= h0);
                } else {
                    assert(h1 == h0);
                }
            },
            Step::SendSucceeded => {
                assert(s1 == s0);
                assert(d1 == d0 + before.queues[i].in_flight);
                assert(h1 =~= before.queues[i].pending);
                assert(d1 + h1 =~= d0 + h0);
            },
            Step::SendFailed => {},
        }
        assert(d1 + h1 == held0 + s1);
    }
}

/// Starting with nothing held and while every send succeeds, what was
/// delivered of a severity is a prefix of what was submitted of it, and the
/// rest is what the engine still holds.
pub proof fn lemma_delivery_from_empty(model: EngineModel, steps: Seq<Step>, level: Level)
    requires
        model.wf(),
        holds_nothing(model),
        all_sends_succeed(steps),
    ensures
        delivered(model, steps, level) + after_steps(model, steps).queues[level.spec_index()].held()
            == submitted(steps, level),
{
    crate::level::lemma_index_round_trip(level);
    lemma_delivery_in_order(model, steps, level);
    assert(model.queues[level.spec_index()].held() == Seq::<EventModel>::empty());
    assert(Seq::<EventModel>::empty() + submitted(steps, level) =~= submitted(steps, level));
}

/// A request carries, for each severity, exactly the events that go in
/// flight with it: those that waited, in their order.
pub proof fn lemma_request_carries_pending(model: EngineModel, level: Level)
    requires
        model.wf(),
        issues_request(model),
    ensures
        model.requested().queues[level.spec_index()].in_flight
            == model.queues[level.spec_index()].pending,
        model.requested().queues[level.spec_index()].pending == Seq::<EventModel>::empty(),
{
    crate::level::lemma_index_round_trip(level);
}

/// Where no event waits, asking for the next request yields none and
/// changes nothing.
pub proof fn lemma_empty_flush_is_idle(model: EngineModel)
    requires
        nothing_pending(model),
    ensures
        !model.may_send(),
        !issues_request(model),
        after_step(model, Step::Request) == model,
{
    assert forall|i: int| 0 <= i < model.queues.len() implies !any_trigger(
        (#[trigger] model.queues[i]).pending,
    ) by {
        assert(model.queues[i].pending.len() == 0);
    }
}

/// While the backoff timer runs, asking for the next request yields none;
/// so after a failure nothing is sent until the timer has run out.
pub proof fn lemma_no_request_while_backing_off(model: EngineModel)
    ensures
        model.backing_off ==> after_step(model, Step::Request) == model,
        after_step(model, Step::SendFailed).backing_off,
        after_step(after_step(model, Step::SendFailed), Step::Request) == after_step(
            model,
            Step::SendFailed,
        ),
{
}

/// A failure that follows a failure, with no success in between, asks for
/// a delay that is no shorter, and none asks for more than the ceiling.
pub proof fn lemma_delays_grow(model: EngineModel)
    requires
        model.wf(),
    ensures
        delay_after(model.base_delay, model.next_failures()) <= delay_after(
            model.base_delay,
            model.send_failed().next_failures(),
        ) <= MAX_DELAY_MS,
        model.send_succeeded().next_failures() == 1,
{
    lemma_delay_monotonic(
        model.base_delay,
        model.next_failures(),
        model.send_failed().next_failures(),
    );
}

/// While a request is outstanding, asking for the next one yields none: at
/// most one request is outstanding at any time.
pub proof fn lemma_one_request_at_a_time(model: EngineModel)
    ensures
        model.sending ==> after_step(model, Step::Request) == model,
{
}

/// A failure that gives up what is held leaves nothing behind, in any
/// queue; any other failure keeps every event.
pub proof fn lemma_long_outage_clears(model: EngineModel)
    requires
        model.wf(),
    ensures
        model.next_failure_drops() ==> holds_nothing(model.send_failed())
            && model.send_failed().held_count() == 0,
        !model.next_failure_drops() ==> model.send_failed().held_count() == model.held_count(),
{
    let after = model.send_failed();
    if model.next_failure_drops() {
        assert forall|i: int| 0 <= i < after.queues.len() implies (#[trigger] after.queues[i])
            .held() == Seq::<EventModel>::empty() by {
            assert(after.queues[i].held() =~= Seq::<EventModel>::empty());
        }
        lemma_nothing_held_counts_zero(after, LEVEL_COUNT as nat);
    } else {
        crate::engine::lemma_requeue_keeps_count(
            model.queues,
            model.send_failed().queues,
            LEVEL_COUNT as nat,
        );
    }
}

/// Queues that hold nothing count no events.
proof fn lemma_nothing_held_counts_zero(model: EngineModel, count: nat)
    requires
        count <= model.queues.len(),
        holds_nothing(model),
    ensures
        crate::engine::total_held(model.queues, count) == 0,
    decreases count,
{
    if count > 0 {
        lemma_nothing_held_counts_zero(model, (count - 1) as nat);
        assert(model.queues[count - 1].held() == Seq::<EventModel>::empty());
    }
}

/// An engine that reports completion was asked to shut down and holds
/// nothing that waits: every event was taken into a request, or given up.
pub proof fn lemma_done_has_flushed(model: EngineModel)
    requires
        model.done(),
    ensures
        model.quitting,
        !model.sending,
        !model.backing_off,
        nothing_pending(model),
        after_step(model, Step::Request) == model,
{
    assert forall|i: int| 0 <= i < model.queues.len() implies (#[trigger] model.queues[i])
        .pending.len() == 0 by {
        if model.queues[i].pending.len() > 0 {
            assert(model.has_pending());
        }
    }
    lemma_empty_flush_is_idle(model);
}

/// A run in which every send succeeds and which ends with the engine
/// done has delivered, of each severity, exactly what was submitted, in
/// the order of submission.
pub proof fn lemma_done_run_delivers_all(model: EngineModel, steps: Seq<Step>, level: Level)
    requires
        model.wf(),
        holds_nothing(model),
        all_sends_succeed(steps),
        after_steps(model, steps).done(),
    ensures
        delivered(model, steps, level) == submitted(steps, level),
{
    let last = after_steps(model, steps);
    let i = level.spec_index();
    crate::level::lemma_index_round_trip(level);
    lemma_steps_keep_wf(model, steps);
    lemma_done_has_flushed(last);
    lemma_delivery_from_empty(model, steps, level);
    assert(last.queues[i].in_flight.len() == 0);
    assert(last.queues[i].pending.len() == 0);
    assert(last.queues[i].held() =~= Seq::<EventModel>::empty());
    assert(delivered(model, steps, level) + Seq::<EventModel>::empty() =~= delivered(
        model,
        steps,
        level,
    ));
}

/// Once shutdown is asked for, events that wait are flushed whether or
/// not one of them asks for a send: with no request outstanding and no
/// timer running, asking for the next request yields one, unless what
/// waits does not fit into a request.
pub proof fn lemma_shutdown_flushes(model: EngineModel)
    requires
        model.quitting,
        !model.sending,
        !model.backing_off,
        model.has_pending(),
    ensures
        model.may_send(),
        !model.done(),
{
}

/// During shutdown a failed request is tried once more; where the retry
/// fails too, everything is given up, so that the engine can finish.
pub proof fn lemma_drain_retries_once(model: EngineModel)
    requires
        model.wf(),
        model.quitting,
    ensures
        model.send_failed().drain_failed,
        model.send_failed().quitting,
        !model.drain_failed && !is_long_outage(model.base_delay, model.next_failures())
            ==> model.send_failed().held_count() == model.held_count(),
        model.drain_failed ==> holds_nothing(model.send_failed()),
        holds_nothing(model.send_failed().send_failed()),
        !model.send_succeeded().drain_failed,
{
    lemma_long_outage_clears(model);
    lemma_step_keeps_wf(model, Step::SendFailed);
    lemma_long_outage_clears(model.send_failed());
}

} // verus!
