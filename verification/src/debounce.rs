//! Coalescing bursts of configuration updates: while updates keep arriving
//! faster than a short quiet period, only the latest is kept, and it is
//! passed on once the burst ends.

use vstd::prelude::*;

verus! {

/// What the waiting side observed.
#[derive(Debug, Clone, PartialEq, Eq)]
pub enum BurstEvent<T> {
    /// A new value arrived.
    Arrived(T),
    /// The quiet period elapsed with no new value.
    Quiet,
    /// The sending side is gone; nothing more will arrive.
    Closed,
}

/// What to do next.
#[derive(Debug, Clone, PartialEq, Eq)]
pub enum BurstAction<T> {
    /// Keep waiting: for the first value of a burst when none is held, or
    /// for the quiet period (restarted) when one is held.
    Wait,
    /// Pass this value on; the burst is over.
    Publish(T),
    /// Pass this value on, if any, and stop listening.
    Finish(Option<T>),
}

/// The held value and the action after `event`, holding `pending`.
pub open spec fn burst_transition<T>(pending: Option<T>, event: BurstEvent<T>) -> (Option<T>, BurstAction<T>) {
    match event {
        BurstEvent::Arrived(value) => (Some(value), BurstAction::Wait),
        BurstEvent::Quiet => match pending {
            Some(value) => (None, BurstAction::Publish(value)),
            None => (None, BurstAction::Wait),
        },
        BurstEvent::Closed => (None, BurstAction::Finish(pending)),
    }
}

/// The values an action passes on.
pub open spec fn published<T>(action: BurstAction<T>) -> Seq<T> {
    match action {
        BurstAction::Wait => Seq::empty(),
        BurstAction::Publish(value) => seq![value],
        BurstAction::Finish(Some(value)) => seq![value],
        BurstAction::Finish(None) => Seq::empty(),
    }
}

/// The held value after `events`, starting from `pending`, and every value
/// passed on along the way, in order.
pub open spec fn run_events<T>(pending: Option<T>, events: Seq<BurstEvent<T>>) -> (Option<T>, Seq<T>)
    decreases events.len(),
{
    if events.len() == 0 {
        (pending, Seq::empty())
    } else {
        let before = run_events(pending, events.drop_last());
        let after = burst_transition(before.0, events.last());
        (after.0, before.1 + published(after.1))
    }
}

/// Decides what follows `event` while holding `pending`: an arrival
/// replaces the held value and restarts the wait; a quiet period passes
/// the held value on; a closed sender passes on what is held and stops.
pub fn burst_step<T>(pending: Option<T>, event: BurstEvent<T>) -> (next: (Option<T>, BurstAction<T>))
    ensures
        next == burst_transition(pending, event),
{
    match event {
        BurstEvent::Arrived(value) => (Some(value), BurstAction::Wait),
        BurstEvent::Quiet => match pending {
            Some(value) => (None, BurstAction::Publish(value)),
            None => (None, BurstAction::Wait),
        },
        BurstEvent::Closed => (None, BurstAction::Finish(pending)),
    }
}

/// A burst: each value arriving in turn.
pub open spec fn arrivals<T>(values: Seq<T>) -> Seq<BurstEvent<T>> {
    values.map_values(|value: T| BurstEvent::Arrived(value))
}

proof fn lemma_arrivals_hold_the_last<T>(pending: Option<T>, values: Seq<T>)
    requires
        values.len() > 0,
    ensures
        run_events(pending, arrivals(values)) == (Some(values.last()), Seq::<T>::empty()),
    decreases values.len(),
{
    let events = arrivals(values);
    assert(events.drop_last() =~= arrivals(values.drop_last()));
    assert(events.last() == BurstEvent::Arrived(values.last()));
    let before = run_events(pending, events.drop_last());
    if values.len() > 1 {
        lemma_arrivals_hold_the_last(pending, values.drop_last());
    } else {
        assert(events.drop_last().len() == 0);
    }
    assert(before.1 == Seq::<T>::empty());
    assert(published(burst_transition(before.0, events.last()).1) == Seq::<T>::empty());
    assert(before.1 + Seq::<T>::empty() =~= Seq::<T>::empty());
}

/// However many updates arrive in a burst, the quiet period that ends it
/// passes on exactly one value, the last, and nothing is held afterwards.
pub proof fn burst_publishes_only_its_last_value<T>(values: Seq<T>)
    requires
        values.len() > 0,
    ensures
        run_events(None, arrivals(values).push(BurstEvent::Quiet)) == (None::<T>, seq![values.last()]),
{
    lemma_arrivals_hold_the_last(None, values);
    assert(arrivals(values).push(BurstEvent::Quiet).drop_last() =~= arrivals(values));
    assert(Seq::<T>::empty() + seq![values.last()] =~= seq![values.last()]);
}

/// When the sender goes away in the middle of a burst, the last value that
/// arrived is still passed on, once.
pub proof fn closing_mid_burst_keeps_the_last_value<T>(values: Seq<T>)
    requires
        values.len() > 0,
    ensures
        run_events(None, arrivals(values).push(BurstEvent::Closed)) == (None::<T>, seq![values.last()]),
{
    lemma_arrivals_hold_the_last(None, values);
    assert(arrivals(values).push(BurstEvent::Closed).drop_last() =~= arrivals(values));
    assert(Seq::<T>::empty() + seq![values.last()] =~= seq![values.last()]);
}

} // verus!
