//! From coalesced events to change notifications.
//!
//! A coalesced event becomes a notification when its path is an image path
//! and its kind is a creation, a modification or a removal. Everything else
//! is dropped without an error.

use crate::debouncer::{distinct_paths, flushed, waiting, Debouncer};
use crate::event::{
    coalesced_views, notification_views, ChangeNotification, ChangeNotificationView,
    CoalescedEvent, CoalescedEventView, EventKind,
};
use crate::filter::{admits, has_suffix, is_image_path};
use vstd::prelude::*;

verus! {

/// The event type that a kind is reported as, if it is reported at all.
pub open spec fn event_type_name(kind: EventKind) -> Option<Seq<char>> {
    match kind {
        EventKind::Created => Some("created"@),
        EventKind::Modified => Some("modified"@),
        EventKind::Removed => Some("deleted"@),
        EventKind::Other => None,
    }
}

/// The notification that a coalesced event produces, if it produces one.
pub open spec fn notification_of(e: CoalescedEventView) -> Option<ChangeNotificationView> {
    if is_image_path(e.path) && event_type_name(e.kind).is_some() {
        Some(ChangeNotificationView { path: e.path, event_type: event_type_name(e.kind).unwrap() })
    } else {
        None
    }
}

/// The notifications that a sequence of coalesced events produces, in order.
pub open spec fn notifications_of(events: Seq<CoalescedEventView>) -> Seq<ChangeNotificationView> {
    events.filter_map(|e: CoalescedEventView| notification_of(e))
}

/// The view of an optional notification.
pub open spec fn optional_view(n: Option<ChangeNotification>) -> Option<ChangeNotificationView> {
    match n {
        Some(n) => Some(n@),
        None => None,
    }
}

/// The view of an optional string slice.
pub open spec fn optional_text(t: Option<&str>) -> Option<Seq<char>> {
    match t {
        Some(t) => Some(t@),
        None => None,
    }
}

/// The event type that `kind` is reported as: `"created"`, `"modified"` or
/// `"deleted"`, and nothing for any other kind.
pub fn event_type_of(kind: EventKind) -> (name: Option<&'static str>)
    ensures
        optional_text(name) == event_type_name(kind),
{
    match kind {
        EventKind::Created => Some("created"),
        EventKind::Modified => Some("modified"),
        EventKind::Removed => Some("deleted"),
        EventKind::Other => None,
    }
}

/// Filters one coalesced event and turns it into a notification.
pub fn notification_for(event: &CoalescedEvent) -> (note: Option<ChangeNotification>)
    ensures
        optional_view(note) == notification_of(event@),
{
    if !admits(event.path.as_str()) {
        return None;
    }
    match event_type_of(event.kind) {
        Some(name) => Some(
            ChangeNotification { path: event.path.clone(), event_type: name.to_owned() },
        ),
        None => None,
    }
}

/// Filters a batch of coalesced events and turns those that pass into
/// notifications, keeping their order.
pub fn notifications_for(events: &Vec<CoalescedEvent>) -> (notes: Vec<ChangeNotification>)
    ensures
        notification_views(notes@) == notifications_of(coalesced_views(events@)),
{
    let ghost all = coalesced_views(events@);
    let mut notes: Vec<ChangeNotification> = Vec::new();
    let n = events.len();
    let mut i: usize = 0;
    while i < n
        invariant
            i <= n,
            n == events.len(),
            all == coalesced_views(events@),
            notification_views(notes@) == notifications_of(all.take(i as int)),
        decreases n - i,
    {
        let ghost before = notification_views(notes@);
        proof {
            all.lemma_filter_map_take_succ(|e: CoalescedEventView| notification_of(e), i as int);
        }
        match notification_for(&events[i]) {
            Some(note) => {
                notes.push(note);
                proof {
                    assert(notification_views(notes@) =~= before + seq![note@]);
                }
            },
            None => {},
        }
        i += 1;
    }
    proof {
        assert(all.take(n as int) =~= all);
    }
    notes
}

/// Flushes the debouncer at time `now` and returns the notifications for
/// what it emitted: one for every path that has been quiet for the whole
/// window, is an image path and was last created, modified or removed.
pub fn flush_notifications(debouncer: &mut Debouncer, now: u64) -> (notes: Vec<
    ChangeNotification,
>)
    ensures
        final(debouncer)@ == waiting(old(debouncer)@, now),
        distinct_paths(old(debouncer)@),
        distinct_paths(final(debouncer)@),
        notification_views(notes@) == notifications_of(flushed(old(debouncer)@, now)),
{
    let emitted = debouncer.flush(now);
    notifications_for(&emitted)
}

/// A text file never produces a notification, whatever happened to it.
pub proof fn lemma_text_file_is_dropped(e: CoalescedEventView)
    requires
        has_suffix(e.path, ".txt"@),
    ensures
        notification_of(e) is None,
{
    reveal_strlit(".txt");
    reveal_strlit(".png");
    reveal_strlit(".jpg");
    reveal_strlit(".jpeg");
    reveal_strlit(".gif");
    reveal_strlit(".svg");
    reveal_strlit(".webp");
    reveal_strlit(".bmp");
    let n = e.path.len() as int;
    assert(e.path.subrange(n - 4, n)[3] == 't');
    assert(e.path[n - 1] == 't');
    assert(!has_suffix(e.path, ".png"@)) by {
        if has_suffix(e.path, ".png"@) {
            assert(e.path.subrange(n - 4, n)[3] == 'g');
        }
    }
    assert(!has_suffix(e.path, ".jpg"@)) by {
        if has_suffix(e.path, ".jpg"@) {
            assert(e.path.subrange(n - 4, n)[3] == 'g');
        }
    }
    assert(!has_suffix(e.path, ".jpeg"@)) by {
        if has_suffix(e.path, ".jpeg"@) {
            assert(e.path.subrange(n - 5, n)[4] == 'g');
        }
    }
    assert(!has_suffix(e.path, ".gif"@)) by {
        if has_suffix(e.path, ".gif"@) {
            assert(e.path.subrange(n - 4, n)[3] == 'f');
        }
    }
    assert(!has_suffix(e.path, ".svg"@)) by {
        if has_suffix(e.path, ".svg"@) {
            assert(e.path.subrange(n - 4, n)[3] == 'g');
        }
    }
    assert(!has_suffix(e.path, ".webp"@)) by {
        if has_suffix(e.path, ".webp"@) {
            assert(e.path.subrange(n - 5, n)[4] == 'p');
        }
    }
    assert(!has_suffix(e.path, ".bmp"@)) by {
        if has_suffix(e.path, ".bmp"@) {
            assert(e.path.subrange(n - 4, n)[3] == 'p');
        }
    }
}

/// A removed PNG file is reported as deleted, under its own path.
pub proof fn lemma_removed_png_is_deleted(e: CoalescedEventView)
    requires
        has_suffix(e.path, ".png"@),
        e.kind == EventKind::Removed,
    ensures
        notification_of(e) == Some(
            ChangeNotificationView { path: e.path, event_type: "deleted"@ },
        ),
{
}

/// Every notification is about an image path and carries one of the three
/// event types.
pub proof fn lemma_notifications_are_image_changes(events: Seq<CoalescedEventView>, i: int)
    requires
        0 <= i < notifications_of(events).len(),
    ensures
        is_image_path(notifications_of(events)[i].path),
        notifications_of(events)[i].event_type == "created"@ || notifications_of(
            events,
        )[i].event_type == "modified"@ || notifications_of(events)[i].event_type == "deleted"@,
    decreases events.len(),
{
    if events.len() > 0 {
        let front = events.drop_last();
        if i < notifications_of(front).len() {
            lemma_notifications_are_image_changes(front, i);
        }
    }
}

} // verus!
