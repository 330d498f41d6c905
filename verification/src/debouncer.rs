//! The debouncer: per-path pending state with last-write-wins coalescing.
//!
//! Time is a count of milliseconds on a clock of the caller's choosing. Every
//! event for a path overwrites the kind pending for it and restarts its quiet
//! period; a path is flushed once it has been quiet for the whole window.

use crate::event::{coalesced_views, path_views, CoalescedEvent, CoalescedEventView, EventKind, RawEvent};
use vstd::prelude::*;

verus! {

/// Length of the quiet period after which a pending path is flushed.
pub const DEBOUNCE_WINDOW_MS: u64 = 500;

/// What is pending for one path: the kind seen last and when it was seen.
pub ghost struct PendingView {
    pub path: Seq<char>,
    pub kind: EventKind,
    pub last_seen: u64,
}

struct Pending {
    path: String,
    kind: EventKind,
    last_seen: u64,
}

impl View for Pending {
    type V = PendingView;

    closed spec fn view(&self) -> PendingView {
        PendingView { path: self.path@, kind: self.kind, last_seen: self.last_seen }
    }
}

/// No path is pending twice.
pub open spec fn distinct_paths(s: Seq<PendingView>) -> bool {
    forall|i: int, j: int| 0 <= i < j < s.len() ==> s[i].path != s[j].path
}

/// Something is pending for `path`.
pub open spec fn is_pending(s: Seq<PendingView>, path: Seq<char>) -> bool {
    exists|i: int| 0 <= i < s.len() && #[trigger] s[i].path == path
}

/// Where the pending state of `path` stands, if `path` is pending.
pub open spec fn slot_of(s: Seq<PendingView>, path: Seq<char>) -> int {
    choose|i: int| 0 <= i < s.len() && #[trigger] s[i].path == path
}

/// The pending state after one event of kind `kind` for `path` at time `now`:
/// the path's state is overwritten where it stands, or added at the end.
pub open spec fn touch(s: Seq<PendingView>, path: Seq<char>, kind: EventKind, now: u64) -> Seq<
    PendingView,
> {
    let fresh = PendingView { path, kind, last_seen: now };
    if is_pending(s, path) {
        s.update(slot_of(s, path), fresh)
    } else {
        s.push(fresh)
    }
}

/// The pending state after an event of kind `kind` at time `now` that touched
/// `paths`, taken in order.
pub open spec fn record_paths(
    s: Seq<PendingView>,
    kind: EventKind,
    paths: Seq<Seq<char>>,
    now: u64,
) -> Seq<PendingView>
    decreases paths.len(),
{
    if paths.len() == 0 {
        s
    } else {
        touch(record_paths(s, kind, paths.drop_last(), now), paths.last(), kind, now)
    }
}

/// The path has been quiet for the whole window at time `now`.
pub open spec fn is_due(e: PendingView, now: u64) -> bool {
    now >= e.last_seen && now - e.last_seen >= DEBOUNCE_WINDOW_MS
}

/// The pending states that a flush at time `now` emits, in order.
pub open spec fn due(s: Seq<PendingView>, now: u64) -> Seq<PendingView> {
    s.filter(|e: PendingView| is_due(e, now))
}

/// The pending states that a flush at time `now` leaves behind, in order.
pub open spec fn waiting(s: Seq<PendingView>, now: u64) -> Seq<PendingView> {
    s.filter(|e: PendingView| !is_due(e, now))
}

/// The coalesced event that a pending state flushes as.
pub open spec fn coalesce(e: PendingView) -> CoalescedEventView {
    CoalescedEventView { path: e.path, kind: e.kind }
}

/// The coalesced events that a flush at time `now` emits, in order.
pub open spec fn flushed(s: Seq<PendingView>, now: u64) -> Seq<CoalescedEventView> {
    due(s, now).map_values(|e: PendingView| coalesce(e))
}

/// The views of the stored entries, in order.
spec fn entry_views(entries: Seq<Pending>) -> Seq<PendingView> {
    entries.map_values(|p: Pending| p@)
}

/// Overwrites the entry of `path`, or adds one at the end.
fn touch_entries(entries: &mut Vec<Pending>, path: &String, kind: EventKind, now: u64)
    requires
        distinct_paths(entry_views(old(entries)@)),
    ensures
        entry_views(final(entries)@) == touch(entry_views(old(entries)@), path@, kind, now),
        distinct_paths(entry_views(final(entries)@)),
{
    let ghost s = entry_views(entries@);
    proof {
        lemma_touch_entry(s, path@, kind, now);
    }
    let n = entries.len();
    let mut i: usize = 0;
    while i < n
        invariant
            i <= n,
            n == entries.len(),
            *entries == *old(entries),
            s == entry_views(entries@),
            distinct_paths(s),
            forall|j: int| 0 <= j < i ==> (#[trigger] s[j]).path != path@,
        decreases n - i,
    {
        if entries[i].path == *path {
            proof {
                assert(s[i as int].path == path@);
                lemma_entry_at(s, i as int);
            }
            entries.set(i, Pending { path: path.clone(), kind, last_seen: now });
            proof {
                assert(entry_views(entries@) =~= touch(s, path@, kind, now));
            }
            return ;
        }
        i += 1;
    }
    proof {
        assert(!is_pending(s, path@));
    }
    entries.push(Pending { path: path.clone(), kind, last_seen: now });
    proof {
        assert(entry_views(entries@) =~= touch(s, path@, kind, now));
    }
}

/// Moves the entries that are due out of `entries`, as coalesced events.
fn flush_entries(entries: &mut Vec<Pending>, now: u64) -> (emitted: Vec<CoalescedEvent>)
    requires
        distinct_paths(entry_views(old(entries)@)),
    ensures
        coalesced_views(emitted@) == flushed(entry_views(old(entries)@), now),
        entry_views(final(entries)@) == waiting(entry_views(old(entries)@), now),
        distinct_paths(entry_views(final(entries)@)),
{
    let ghost s = entry_views(entries@);
    let n = entries.len();
    // Move the entries onto a stack, last entry first, so that popping the
    // stack walks them in their order.
    let mut stack: Vec<Pending> = Vec::new();
    while entries.len() > 0
        invariant
            entries.len() + stack.len() == n,
            n == s.len(),
            forall|j: int| 0 <= j < entries.len() ==> (#[trigger] entries@[j])@ == s[j],
            forall|j: int| 0 <= j < stack.len() ==> (#[trigger] stack@[j])@ == s[n as int - 1 - j],
        decreases entries.len(),
    {
        let entry = entries.pop().unwrap();
        stack.push(entry);
    }
    let mut emitted: Vec<CoalescedEvent> = Vec::new();
    let mut i: usize = 0;
    while stack.len() > 0
        invariant
            i + stack.len() == n,
            n == s.len(),
            forall|j: int| 0 <= j < stack.len() ==> (#[trigger] stack@[j])@ == s[n as int - 1 - j],
            entry_views(entries@) == waiting(s.take(i as int), now),
            coalesced_views(emitted@) == flushed(s.take(i as int), now),
        decreases stack.len(),
    {
        let entry = stack.pop().unwrap();
        proof {
            assert(entry@ == s[i as int]);
            assert(s.take(i as int + 1) =~= s.take(i as int).push(s[i as int]));
            lemma_flush_push(s.take(i as int), s[i as int], now);
        }
        let ghost kept = entry_views(entries@);
        let ghost sent = coalesced_views(emitted@);
        if now >= entry.last_seen && now - entry.last_seen >= DEBOUNCE_WINDOW_MS {
            emitted.push(CoalescedEvent { path: entry.path, kind: entry.kind });
            proof {
                assert(coalesced_views(emitted@) =~= sent.push(coalesce(s[i as int])));
            }
        } else {
            entries.push(entry);
            proof {
                assert(entry_views(entries@) =~= kept.push(s[i as int]));
            }
        }
        i += 1;
    }
    proof {
        assert(s.take(n as int) =~= s);
        lemma_waiting_distinct(s, now);
    }
    emitted
}

/// Buffers raw events per path and flushes one coalesced event per path once
/// the path has been quiet for [`DEBOUNCE_WINDOW_MS`].
///
/// Its view is what is pending, one entry per path, in the order in which
/// the paths were first seen.
pub struct Debouncer {
    pending: Vec<Pending>,
}

impl View for Debouncer {
    type V = Seq<PendingView>;

    closed spec fn view(&self) -> Seq<PendingView> {
        entry_views(self.pending@)
    }
}

impl Debouncer {
    /// The invariant of a debouncer: no path is pending twice.
    #[verifier::type_invariant]
    closed spec fn wf(&self) -> bool {
        distinct_paths(self@)
    }

    /// A debouncer with nothing pending.
    pub fn new() -> (d: Debouncer)
        ensures
            d@ == Seq::<PendingView>::empty(),
    {
        Debouncer { pending: Vec::new() }
    }

    /// Number of paths with pending state.
    pub fn pending_count(&self) -> (n: usize)
        ensures
            n == self@.len(),
            distinct_paths(self@),
    {
        proof {
            use_type_invariant(self);
        }
        self.pending.len()
    }

    /// Takes in one raw event seen at time `now`: every path it touched gets
    /// the event's kind as its pending kind and starts a new quiet period.
    pub fn record(&mut self, event: &RawEvent, now: u64)
        ensures
            final(self)@ == record_paths(
                old(self)@,
                event.kind,
                path_views(event.affected_paths@),
                now,
            ),
            distinct_paths(old(self)@),
            distinct_paths(final(self)@),
    {
        proof {
            use_type_invariant(&*self);
        }
        let ghost paths = path_views(event.affected_paths@);
        let mut entries: Vec<Pending> = Vec::new();
        std::mem::swap(&mut self.pending, &mut entries);
        let n = event.affected_paths.len();
        let mut i: usize = 0;
        while i < n
            invariant
                i <= n,
                n == event.affected_paths.len(),
                paths == path_views(event.affected_paths@),
                distinct_paths(entry_views(entries@)),
                entry_views(entries@) == record_paths(
                    old(self)@,
                    event.kind,
                    paths.take(i as int),
                    now,
                ),
            decreases n - i,
        {
            touch_entries(&mut entries, &event.affected_paths[i], event.kind, now);
            proof {
                let upto = paths.take(i as int + 1);
                assert(upto.drop_last() =~= paths.take(i as int));
                assert(upto.last() == event.affected_paths@[i as int]@);
            }
            i += 1;
        }
        proof {
            assert(paths.take(n as int) =~= paths);
        }
        self.pending = entries;
    }

    /// Flushes at time `now`: every path that has been quiet for the whole
    /// window leaves the pending state and is returned as one coalesced event
    /// carrying the kind seen last. The other paths stay as they are.
    pub fn flush(&mut self, now: u64) -> (emitted: Vec<CoalescedEvent>)
        ensures
            coalesced_views(emitted@) == flushed(old(self)@, now),
            final(self)@ == waiting(old(self)@, now),
            distinct_paths(old(self)@),
            distinct_paths(final(self)@),
    {
        proof {
            use_type_invariant(&*self);
        }
        let mut entries: Vec<Pending> = Vec::new();
        std::mem::swap(&mut self.pending, &mut entries);
        let emitted = flush_entries(&mut entries, now);
        self.pending = entries;
        emitted
    }
}

/// Flushing a pending state with one more entry at its end: the entry joins
/// what is emitted if it is due, and what stays if it is not.
pub proof fn lemma_flush_push(s: Seq<PendingView>, e: PendingView, now: u64)
    ensures
        is_due(e, now) ==> flushed(s.push(e), now) == flushed(s, now).push(coalesce(e))
            && waiting(s.push(e), now) == waiting(s, now),
        !is_due(e, now) ==> flushed(s.push(e), now) == flushed(s, now) && waiting(
            s.push(e),
            now,
        ) == waiting(s, now).push(e),
{
    let is_due_now = |x: PendingView| is_due(x, now);
    let not_due_now = |x: PendingView| !is_due(x, now);
    assert(s.push(e).drop_last() =~= s);
    reveal(Seq::filter);
    assert(s.push(e).filter(is_due_now) == if is_due(e, now) {
        s.filter(is_due_now).push(e)
    } else {
        s.filter(is_due_now)
    });
    assert(s.push(e).filter(not_due_now) == if !is_due(e, now) {
        s.filter(not_due_now).push(e)
    } else {
        s.filter(not_due_now)
    });
    if is_due(e, now) {
        assert(flushed(s.push(e), now) =~= flushed(s, now).push(coalesce(e)));
    }
}

/// Every entry that a flush leaves behind was pending before and is not due;
/// every entry that it emits was pending before and is due.
pub proof fn lemma_flush_sources(s: Seq<PendingView>, now: u64)
    ensures
        forall|k: int|
            0 <= k < waiting(s, now).len() ==> s.contains(#[trigger] waiting(s, now)[k])
                && !is_due(waiting(s, now)[k], now),
        forall|k: int|
            0 <= k < due(s, now).len() ==> s.contains(#[trigger] due(s, now)[k]) && is_due(
                due(s, now)[k],
                now,
            ),
    decreases s.len(),
{
    reveal(Seq::filter);
    if s.len() > 0 {
        let front = s.drop_last();
        let e = s.last();
        lemma_flush_sources(front, now);
        assert forall|k: int| 0 <= k < waiting(s, now).len() implies s.contains(
            #[trigger] waiting(s, now)[k],
        ) && !is_due(waiting(s, now)[k], now) by {
            let x = waiting(s, now)[k];
            if k < waiting(front, now).len() {
                assert(x == waiting(front, now)[k]);
                assert(front.contains(x));
                let j = choose|j: int| 0 <= j < front.len() && front[j] == x;
                assert(s[j] == x);
            } else {
                assert(x == e);
                assert(s[s.len() - 1] == x);
            }
        }
        assert forall|k: int| 0 <= k < due(s, now).len() implies s.contains(
            #[trigger] due(s, now)[k],
        ) && is_due(due(s, now)[k], now) by {
            let x = due(s, now)[k];
            if k < due(front, now).len() {
                assert(x == due(front, now)[k]);
                assert(front.contains(x));
                let j = choose|j: int| 0 <= j < front.len() && front[j] == x;
                assert(s[j] == x);
            } else {
                assert(x == e);
                assert(s[s.len() - 1] == x);
            }
        }
    }
}

/// A flush keeps the invariant: what stays pending has distinct paths.
pub proof fn lemma_waiting_distinct(s: Seq<PendingView>, now: u64)
    requires
        distinct_paths(s),
    ensures
        distinct_paths(waiting(s, now)),
    decreases s.len(),
{
    if s.len() > 0 {
        let front = s.drop_last();
        let e = s.last();
        assert(front.push(e) =~= s);
        assert(distinct_paths(front));
        lemma_waiting_distinct(front, now);
        lemma_flush_push(front, e, now);
        lemma_flush_sources(front, now);
        if !is_due(e, now) {
            let w = waiting(front, now);
            assert forall|k: int| 0 <= k < w.len() implies (#[trigger] w[k]).path != e.path by {
                assert(front.contains(w[k]));
                let j = choose|j: int| 0 <= j < front.len() && front[j] == w[k];
                assert(s[j] == w[k]);
                assert(s[s.len() - 1] == e);
            }
        }
    } else {
        reveal(Seq::filter);
    }
}

/// What is pending for `path`, if anything.
pub open spec fn entry_of(s: Seq<PendingView>, path: Seq<char>) -> Option<PendingView> {
    if is_pending(s, path) {
        Some(s[slot_of(s, path)])
    } else {
        None
    }
}

/// The events among `events` that are about `path`, in order.
pub open spec fn events_for(events: Seq<CoalescedEventView>, path: Seq<char>) -> Seq<
    CoalescedEventView,
> {
    events.filter(|e: CoalescedEventView| e.path == path)
}

/// In a pending state with distinct paths, the entry found at a path's
/// position is the entry of that path.
pub proof fn lemma_entry_at(s: Seq<PendingView>, i: int)
    requires
        distinct_paths(s),
        0 <= i < s.len(),
    ensures
        is_pending(s, s[i].path),
        slot_of(s, s[i].path) == i,
        entry_of(s, s[i].path) == Some(s[i]),
{
    let path = s[i].path;
    assert(is_pending(s, path));
    let k = slot_of(s, path);
    assert(0 <= k < s.len() && s[k].path == path);
    assert(k == i);
}

/// One event for a path: afterwards exactly that event's kind and time are
/// pending for the path, and every other path is as it was.
pub proof fn lemma_touch_entry(s: Seq<PendingView>, path: Seq<char>, kind: EventKind, now: u64)
    requires
        distinct_paths(s),
    ensures
        distinct_paths(touch(s, path, kind, now)),
        entry_of(touch(s, path, kind, now), path) == Some(
            PendingView { path, kind, last_seen: now },
        ),
        forall|other: Seq<char>|
            other != path ==> #[trigger] entry_of(touch(s, path, kind, now), other) == entry_of(
                s,
                other,
            ),
{
    let fresh = PendingView { path, kind, last_seen: now };
    let after = touch(s, path, kind, now);
    let at: int = if is_pending(s, path) {
        slot_of(s, path)
    } else {
        s.len() as int
    };
    assert(0 <= at < after.len() && after[at] == fresh);
    assert(after.len() == if is_pending(s, path) {
        s.len()
    } else {
        s.len() + 1
    });
    assert forall|j: int| 0 <= j < after.len() && j != at implies 0 <= j < s.len()
        && #[trigger] after[j] == s[j] && s[j].path != path by {
        if is_pending(s, path) {
            assert(s[at].path == path);
        }
    }
    assert(distinct_paths(after));
    lemma_entry_at(after, at);
    assert forall|other: Seq<char>| other != path implies #[trigger] entry_of(after, other)
        == entry_of(s, other) by {
        if is_pending(s, other) {
            let j = slot_of(s, other);
            assert(s[j].path == other);
            assert(j != at);
            assert(after[j] == s[j]);
            lemma_entry_at(s, j);
            lemma_entry_at(after, j);
        } else if is_pending(after, other) {
            let j = slot_of(after, other);
            assert(after[j].path == other);
            assert(j != at);
            assert(after[j] == s[j]);
            assert(false);
        }
    }
}

/// One raw event: afterwards the event's kind and time are pending for every
/// path it touched, and every other path is as it was.
pub proof fn lemma_record_entry(
    s: Seq<PendingView>,
    kind: EventKind,
    paths: Seq<Seq<char>>,
    now: u64,
)
    requires
        distinct_paths(s),
    ensures
        distinct_paths(record_paths(s, kind, paths, now)),
        forall|path: Seq<char>|
            paths.contains(path) ==> #[trigger] entry_of(
                record_paths(s, kind, paths, now),
                path,
            ) == Some(PendingView { path, kind, last_seen: now }),
        forall|path: Seq<char>|
            !paths.contains(path) ==> #[trigger] entry_of(
                record_paths(s, kind, paths, now),
                path,
            ) == entry_of(s, path),
    decreases paths.len(),
{
    if paths.len() > 0 {
        let front = paths.drop_last();
        let last = paths.last();
        let mid = record_paths(s, kind, front, now);
        lemma_record_entry(s, kind, front, now);
        lemma_touch_entry(mid, last, kind, now);
        let after = record_paths(s, kind, paths, now);
        assert(after == touch(mid, last, kind, now));
        assert forall|path: Seq<char>| paths.contains(path) implies #[trigger] entry_of(
            after,
            path,
        ) == Some(PendingView { path, kind, last_seen: now }) by {
            if path != last {
                let i = choose|i: int| 0 <= i < paths.len() && paths[i] == path;
                assert(front[i] == path);
                assert(front.contains(path));
            }
        }
        assert forall|path: Seq<char>| !paths.contains(path) implies #[trigger] entry_of(
            after,
            path,
        ) == entry_of(s, path) by {
            assert(paths[paths.len() - 1] == last);
            if front.contains(path) {
                let i = choose|i: int| 0 <= i < front.len() && front[i] == path;
                assert(paths[i] == path);
            }
        }
    }
}

/// What a flush at time `now` leaves pending for a path, given what was
/// pending for it before.
pub open spec fn entry_after_flush(before: Option<PendingView>, now: u64) -> Option<PendingView> {
    match before {
        Some(e) => if is_due(e, now) {
            None
        } else {
            Some(e)
        },
        None => None,
    }
}

/// What a flush at time `now` emits for a path, given what was pending for
/// it before.
pub open spec fn events_at_flush(before: Option<PendingView>, now: u64) -> Seq<
    CoalescedEventView,
> {
    match before {
        Some(e) => if is_due(e, now) {
            seq![coalesce(e)]
        } else {
            Seq::empty()
        },
        None => Seq::empty(),
    }
}

/// A pending state with one more entry at its end, path by path.
pub proof fn lemma_push_entry(s: Seq<PendingView>, e: PendingView)
    requires
        distinct_paths(s.push(e)),
    ensures
        distinct_paths(s),
        entry_of(s, e.path) is None,
        entry_of(s.push(e), e.path) == Some(e),
        forall|other: Seq<char>|
            other != e.path ==> #[trigger] entry_of(s.push(e), other) == entry_of(s, other),
{
    let longer = s.push(e);
    assert forall|i: int, j: int| 0 <= i < j < s.len() implies s[i].path != s[j].path by {
        assert(longer[i] == s[i] && longer[j] == s[j]);
    }
    if is_pending(s, e.path) {
        let j = slot_of(s, e.path);
        assert(longer[j].path == longer[s.len() as int].path);
        assert(false);
    }
    lemma_entry_at(longer, s.len() as int);
    assert forall|other: Seq<char>| other != e.path implies #[trigger] entry_of(longer, other)
        == entry_of(s, other) by {
        if is_pending(s, other) {
            let j = slot_of(s, other);
            assert(longer[j] == s[j]);
            lemma_entry_at(s, j);
            lemma_entry_at(longer, j);
        } else if is_pending(longer, other) {
            let j = slot_of(longer, other);
            assert(longer[j].path == other);
            assert(j < s.len());
            assert(s[j].path == other);
            assert(false);
        }
    }
}

/// A flush, path by path: the path's entry is emitted as one coalesced event
/// and leaves the pending state if it is due, and stays otherwise; a path
/// with nothing pending emits nothing.
pub proof fn lemma_flush_entry(s: Seq<PendingView>, now: u64, path: Seq<char>)
    requires
        distinct_paths(s),
    ensures
        distinct_paths(waiting(s, now)),
        entry_of(waiting(s, now), path) == entry_after_flush(entry_of(s, path), now),
        events_for(flushed(s, now), path) == events_at_flush(entry_of(s, path), now),
    decreases s.len(),
{
    lemma_waiting_distinct(s, now);
    reveal(Seq::filter);
    if s.len() == 0 {
        assert(!is_pending(s, path));
        assert(!is_pending(waiting(s, now), path));
        assert(flushed(s, now).len() == 0);
    } else {
        let front = s.drop_last();
        let e = s.last();
        assert(front.push(e) =~= s);
        lemma_push_entry(front, e);
        lemma_flush_entry(front, now, path);
        lemma_flush_push(front, e, now);
        if is_due(e, now) {
            let out = flushed(front, now);
            assert(out.push(coalesce(e)).drop_last() =~= out);
            assert(events_for(out.push(coalesce(e)), path) == if e.path == path {
                events_for(out, path).push(coalesce(e))
            } else {
                events_for(out, path)
            });
            if e.path == path {
                assert(events_for(out, path) =~= Seq::<CoalescedEventView>::empty());
                assert(events_for(flushed(s, now), path) =~= seq![coalesce(e)]);
            }
        } else {
            lemma_waiting_distinct(front, now);
            lemma_push_entry(waiting(front, now), e);
        }
    }
}

} // verus!
