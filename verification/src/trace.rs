//! What the debouncer does over time, path by path.
//!
//! A trace is a sequence of steps, each a raw event taken in or a flush. The
//! proofs here follow one path through a trace: bursts coalesce into one
//! event carrying the last kind, and activity on other paths neither delays
//! nor changes what a path flushes.

use crate::debouncer::{
    coalesce, distinct_paths, entry_after_flush, entry_of, events_at_flush, events_for, flushed,
    is_due, is_pending, lemma_flush_entry, lemma_record_entry, record_paths, waiting,
    PendingView, DEBOUNCE_WINDOW_MS,
};
use crate::event::{CoalescedEventView, EventKind};
use vstd::prelude::*;

verus! {

/// One call on a debouncer.
pub ghost enum Step {
    /// A raw event of kind `kind` that touched `paths`, taken in at time `at`.
    Record { kind: EventKind, paths: Seq<Seq<char>>, at: u64 },
    /// A flush at time `now`.
    Flush { now: u64 },
}

/// The step is a raw event that touched `path`.
pub open spec fn touches(step: Step, path: Seq<char>) -> bool {
    step is Record && step->paths.contains(path)
}

/// The pending state after one step.
pub open spec fn state_after_step(s: Seq<PendingView>, step: Step) -> Seq<PendingView> {
    match step {
        Step::Record { kind, paths, at } => record_paths(s, kind, paths, at),
        Step::Flush { now } => waiting(s, now),
    }
}

/// The coalesced events that one step emits.
pub open spec fn emitted_by_step(s: Seq<PendingView>, step: Step) -> Seq<CoalescedEventView> {
    match step {
        Step::Record { .. } => Seq::empty(),
        Step::Flush { now } => flushed(s, now),
    }
}

/// The pending state after the steps of a trace, started in state `s`.
pub open spec fn state_after(s: Seq<PendingView>, steps: Seq<Step>) -> Seq<PendingView>
    decreases steps.len(),
{
    if steps.len() == 0 {
        s
    } else {
        state_after_step(state_after(s, steps.drop_last()), steps.last())
    }
}

/// Everything that the steps of a trace emit, in order, started in state `s`.
pub open spec fn emitted_during(s: Seq<PendingView>, steps: Seq<Step>) -> Seq<CoalescedEventView>
    decreases steps.len(),
{
    if steps.len() == 0 {
        Seq::empty()
    } else {
        emitted_during(s, steps.drop_last()) + emitted_by_step(
            state_after(s, steps.drop_last()),
            steps.last(),
        )
    }
}

/// The last raw event of a trace that touched `path`, as the pending state
/// it leaves for the path; nothing if no event of the trace touched it.
pub open spec fn latest_touch(steps: Seq<Step>, path: Seq<char>) -> Option<PendingView>
    decreases steps.len(),
{
    if steps.len() == 0 {
        None
    } else if touches(steps.last(), path) {
        Some(PendingView { path, kind: steps.last()->kind, last_seen: steps.last()->at })
    } else {
        latest_touch(steps.drop_last(), path)
    }
}

/// What is pending for `path` after the raw events of a trace, flushes left
/// aside: what the last event that touched the path left, or, if none did,
/// what was pending before.
pub open spec fn pending_through(before: Option<PendingView>, steps: Seq<Step>, path: Seq<char>)
    -> Option<PendingView> {
    match latest_touch(steps, path) {
        Some(e) => Some(e),
        None => before,
    }
}

/// Something is pending and has been quiet for the whole window at `now`.
pub open spec fn has_settled(pending: Option<PendingView>, now: u64) -> bool {
    pending is Some && is_due(pending->Some_0, now)
}

/// The events for `path` keep coming within the window: whenever the trace
/// flushes, what is pending for `path` at that moment has not yet been quiet
/// for the whole window.
pub open spec fn within_window(before: Option<PendingView>, steps: Seq<Step>, path: Seq<char>)
    -> bool {
    forall|i: int|
        0 <= i < steps.len() && (#[trigger] steps[i]) is Flush ==> !has_settled(
            pending_through(before, steps.take(i), path),
            steps[i]->now,
        )
}

/// The time at which a step happens.
pub open spec fn time_of(step: Step) -> u64 {
    match step {
        Step::Record { at, .. } => at,
        Step::Flush { now } => now,
    }
}

/// Every step of the trace happens at `start` or later, and less than a
/// window after `start`.
pub open spec fn in_one_window(steps: Seq<Step>, start: u64) -> bool {
    forall|i: int|
        0 <= i < steps.len() ==> start <= time_of(#[trigger] steps[i]) && time_of(steps[i])
            - start < DEBOUNCE_WINDOW_MS
}

/// No step of the trace is a raw event that touched `path`.
pub open spec fn leaves_alone(steps: Seq<Step>, path: Seq<char>) -> bool {
    forall|i: int| 0 <= i < steps.len() ==> !touches(#[trigger] steps[i], path)
}

/// Every step of the trace is a raw event.
pub open spec fn only_records(steps: Seq<Step>) -> bool {
    forall|i: int| 0 <= i < steps.len() ==> (#[trigger] steps[i]) is Record
}

/// One step keeps the invariant and acts on each path by itself: a raw event
/// that touched the path overwrites its entry, a flush emits and removes the
/// entry if it is due, and nothing else changes the path.
pub proof fn lemma_step_entry(s: Seq<PendingView>, step: Step, path: Seq<char>)
    requires
        distinct_paths(s),
    ensures
        distinct_paths(state_after_step(s, step)),
        touches(step, path) ==> entry_of(state_after_step(s, step), path) == Some(
            PendingView { path, kind: step->kind, last_seen: step->at },
        ),
        step is Record && !touches(step, path) ==> entry_of(state_after_step(s, step), path)
            == entry_of(s, path),
        step is Flush ==> entry_of(state_after_step(s, step), path) == entry_after_flush(
            entry_of(s, path),
            step->now,
        ),
        step is Record ==> events_for(emitted_by_step(s, step), path) == Seq::<
            CoalescedEventView,
        >::empty(),
        step is Flush ==> events_for(emitted_by_step(s, step), path) == events_at_flush(
            entry_of(s, path),
            step->now,
        ),
{
    match step {
        Step::Record { kind, paths, at } => {
            lemma_record_entry(s, kind, paths, at);
            reveal(Seq::filter);
        },
        Step::Flush { now } => {
            lemma_flush_entry(s, now, path);
        },
    }
}

/// A trace keeps the invariant of the pending state: no path is pending
/// twice, whatever was recorded and flushed.
pub proof fn lemma_trace_distinct(s: Seq<PendingView>, steps: Seq<Step>)
    requires
        distinct_paths(s),
    ensures
        distinct_paths(state_after(s, steps)),
    decreases steps.len(),
{
    if steps.len() > 0 {
        lemma_trace_distinct(s, steps.drop_last());
        lemma_step_entry(state_after(s, steps.drop_last()), steps.last(), Seq::empty());
    }
}

/// A flush emits at most one event per path, however many raw events touched
/// the path before.
pub proof fn lemma_one_event_per_path(
    s: Seq<PendingView>,
    steps: Seq<Step>,
    path: Seq<char>,
    now: u64,
)
    requires
        distinct_paths(s),
    ensures
        events_for(flushed(state_after(s, steps), now), path).len() <= 1,
{
    lemma_trace_distinct(s, steps);
    lemma_flush_entry(state_after(s, steps), now, path);
}

/// While the events for a path keep coming within the window, no flush emits
/// anything for the path, and what is pending for it is what its last event
/// left.
pub proof fn lemma_window_holds_back(s: Seq<PendingView>, steps: Seq<Step>, path: Seq<char>)
    requires
        distinct_paths(s),
        within_window(entry_of(s, path), steps, path),
    ensures
        distinct_paths(state_after(s, steps)),
        entry_of(state_after(s, steps), path) == pending_through(entry_of(s, path), steps, path),
        events_for(emitted_during(s, steps), path) == Seq::<CoalescedEventView>::empty(),
    decreases steps.len(),
{
    reveal(Seq::filter);
    if steps.len() > 0 {
        let front = steps.drop_last();
        let last = steps.last();
        let before = entry_of(s, path);
        assert forall|i: int| 0 <= i < front.len() && (#[trigger] front[i]) is Flush
            implies !has_settled(pending_through(before, front.take(i), path), front[i]->now) by {
            assert(front.take(i) =~= steps.take(i));
            assert(steps[i] is Flush);
        }
        lemma_window_holds_back(s, front, path);
        let mid = state_after(s, front);
        lemma_step_entry(mid, last, path);
        if last is Flush {
            assert(steps.take(steps.len() - 1) =~= front);
            assert(steps[steps.len() - 1] is Flush);
            assert(!has_settled(pending_through(before, front, path), last->now));
        }
        Seq::filter_distributes_over_add(
            emitted_during(s, front),
            emitted_by_step(mid, last),
            |e: CoalescedEventView| e.path == path,
        );
    }
}

/// The last event that touched a path, if any, is about that path.
pub proof fn lemma_latest_touch_path(steps: Seq<Step>, path: Seq<char>)
    ensures
        latest_touch(steps, path) is Some ==> latest_touch(steps, path)->Some_0.path == path,
    decreases steps.len(),
{
    if steps.len() > 0 {
        lemma_latest_touch_path(steps.drop_last(), path);
    }
}

/// A burst of events for one path flushes as one event. Take any trace in
/// which at least one raw event touched the path and in which the path's
/// events kept coming within the window; events for other paths may be mixed
/// in at will. Then nothing is emitted for the path during the trace, and the
/// first flush after the path has been quiet for the whole window emits
/// exactly one event for it, carrying the kind of the last event of the
/// burst, after which nothing is pending for the path.
pub proof fn lemma_burst_flushes_once(
    s: Seq<PendingView>,
    steps: Seq<Step>,
    path: Seq<char>,
    now: u64,
)
    requires
        distinct_paths(s),
        latest_touch(steps, path) is Some,
        within_window(entry_of(s, path), steps, path),
        is_due(latest_touch(steps, path)->Some_0, now),
    ensures
        events_for(emitted_during(s, steps), path) == Seq::<CoalescedEventView>::empty(),
        events_for(flushed(state_after(s, steps), now), path) == seq![
            coalesce(latest_touch(steps, path)->Some_0),
        ],
        coalesce(latest_touch(steps, path)->Some_0).path == path,
        !is_pending(waiting(state_after(s, steps), now), path),
{
    lemma_window_holds_back(s, steps, path);
    lemma_flush_entry(state_after(s, steps), now, path);
    lemma_latest_touch_path(steps, path);
}

/// The last event that touched a path is one of the steps of the trace.
pub proof fn lemma_latest_touch_source(steps: Seq<Step>, path: Seq<char>)
    ensures
        latest_touch(steps, path) is Some <==> exists|k: int|
            0 <= k < steps.len() && touches(#[trigger] steps[k], path),
        latest_touch(steps, path) is Some ==> exists|k: int|
            0 <= k < steps.len() && touches(#[trigger] steps[k], path) && latest_touch(
                steps,
                path,
            )->Some_0.last_seen == steps[k]->at,
    decreases steps.len(),
{
    if steps.len() > 0 {
        let front = steps.drop_last();
        let last = steps.len() - 1;
        lemma_latest_touch_source(front, path);
        if touches(steps.last(), path) {
            assert(touches(steps[last], path));
        } else {
            if latest_touch(front, path) is Some {
                let k = choose|k: int|
                    0 <= k < front.len() && touches(#[trigger] front[k], path) && latest_touch(
                        front,
                        path,
                    )->Some_0.last_seen == front[k]->at;
                assert(touches(steps[k], path));
            }
            if exists|k: int| 0 <= k < steps.len() && touches(#[trigger] steps[k], path) {
                let k = choose|k: int| 0 <= k < steps.len() && touches(#[trigger] steps[k], path);
                assert(k != last);
                assert(touches(front[k], path));
            }
        }
    }
}

/// Events within one window coalesce. Take any trace that starts with a raw
/// event for the path and whose steps all happen less than a window after
/// that first event: more events for the path, events for other paths,
/// flushes. Nothing is emitted for the path during the trace, and a flush
/// once the path has been quiet for the whole window emits exactly one event
/// for it, carrying the kind of the last event that touched it.
pub proof fn lemma_one_window_flushes_once(
    s: Seq<PendingView>,
    steps: Seq<Step>,
    path: Seq<char>,
    now: u64,
)
    requires
        distinct_paths(s),
        steps.len() > 0,
        touches(steps[0], path),
        in_one_window(steps, time_of(steps[0])),
        is_due(latest_touch(steps, path)->Some_0, now),
    ensures
        latest_touch(steps, path) is Some,
        events_for(emitted_during(s, steps), path) == Seq::<CoalescedEventView>::empty(),
        events_for(flushed(state_after(s, steps), now), path) == seq![
            coalesce(latest_touch(steps, path)->Some_0),
        ],
        coalesce(latest_touch(steps, path)->Some_0).path == path,
        !is_pending(waiting(state_after(s, steps), now), path),
{
    let start = time_of(steps[0]);
    let before = entry_of(s, path);
    lemma_latest_touch_source(steps, path);
    assert forall|i: int| 0 <= i < steps.len() && (#[trigger] steps[i]) is Flush
        implies !has_settled(pending_through(before, steps.take(i), path), steps[i]->now) by {
        let earlier = steps.take(i);
        assert(i > 0);
        assert(touches(earlier[0], path));
        lemma_latest_touch_source(earlier, path);
        let k = choose|k: int|
            0 <= k < earlier.len() && touches(#[trigger] earlier[k], path) && latest_touch(
                earlier,
                path,
            )->Some_0.last_seen == earlier[k]->at;
        assert(earlier[k] == steps[k]);
        assert(start <= time_of(steps[k]));
        assert(time_of(steps[i]) - start < DEBOUNCE_WINDOW_MS);
    }
    lemma_burst_flushes_once(s, steps, path, now);
}

/// Paths do not wait for each other. However many raw events arrive for
/// other paths, and whenever, what is pending for a path that they did not
/// touch stays as it was: a flush emits for it exactly what it would have
/// emitted without them.
pub proof fn lemma_paths_flush_independently(
    s: Seq<PendingView>,
    steps: Seq<Step>,
    path: Seq<char>,
    now: u64,
)
    requires
        distinct_paths(s),
        only_records(steps),
        leaves_alone(steps, path),
    ensures
        distinct_paths(state_after(s, steps)),
        entry_of(state_after(s, steps), path) == entry_of(s, path),
        events_for(flushed(state_after(s, steps), now), path) == events_for(
            flushed(s, now),
            path,
        ),
    decreases steps.len(),
{
    if steps.len() > 0 {
        let front = steps.drop_last();
        assert forall|i: int| 0 <= i < front.len() implies (#[trigger] front[i]) is Record
            && !touches(front[i], path) by {
            assert(front[i] == steps[i]);
        }
        lemma_paths_flush_independently(s, front, path, now);
        assert(steps[steps.len() - 1] == steps.last());
        lemma_step_entry(state_after(s, front), steps.last(), path);
    }
    lemma_flush_entry(state_after(s, steps), now, path);
    lemma_flush_entry(s, now, path);
}

} // verus!
