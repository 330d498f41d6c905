//! The values that travel through the watcher: raw events, coalesced events
//! and the notifications handed to the sink.

use vstd::prelude::*;

verus! {

/// What happened to a path.
#[derive(Clone, Copy, Debug, PartialEq, Eq, Structural)]
pub enum EventKind {
    Created,
    Modified,
    Removed,
    /// Anything that is neither a creation, a modification nor a removal
    /// (access and metadata-only events, for instance).
    Other,
}

/// One event as the notification backend reports it: a kind and the paths it
/// touched.
#[derive(Clone, Debug, PartialEq, Eq)]
pub struct RawEvent {
    pub kind: EventKind,
    pub affected_paths: Vec<String>,
}

/// The debounced outcome for one path.
#[derive(Clone, Debug, PartialEq, Eq)]
pub struct CoalescedEvent {
    pub path: String,
    pub kind: EventKind,
}

/// The unit delivered to the sink.
#[derive(Clone, Debug, PartialEq, Eq)]
pub struct ChangeNotification {
    pub path: String,
    pub event_type: String,
}

/// Mathematical value of a [`CoalescedEvent`].
pub ghost struct CoalescedEventView {
    pub path: Seq<char>,
    pub kind: EventKind,
}

/// Mathematical value of a [`ChangeNotification`].
pub ghost struct ChangeNotificationView {
    pub path: Seq<char>,
    pub event_type: Seq<char>,
}

impl View for CoalescedEvent {
    type V = CoalescedEventView;

    open spec fn view(&self) -> CoalescedEventView {
        CoalescedEventView { path: self.path@, kind: self.kind }
    }
}

impl View for ChangeNotification {
    type V = ChangeNotificationView;

    open spec fn view(&self) -> ChangeNotificationView {
        ChangeNotificationView { path: self.path@, event_type: self.event_type@ }
    }
}

/// The paths of a raw event as sequences of characters, in order.
pub open spec fn path_views(paths: Seq<String>) -> Seq<Seq<char>> {
    paths.map_values(|p: String| p@)
}

/// The views of a sequence of coalesced events, in order.
pub open spec fn coalesced_views(events: Seq<CoalescedEvent>) -> Seq<CoalescedEventView> {
    events.map_values(|e: CoalescedEvent| e@)
}

/// The views of a sequence of notifications, in order.
pub open spec fn notification_views(notes: Seq<ChangeNotification>) -> Seq<
    ChangeNotificationView,
> {
    notes.map_values(|n: ChangeNotification| n@)
}

} // verus!
