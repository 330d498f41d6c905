use dirwatch::debouncer::Debouncer;
use dirwatch::event::{ChangeNotification, EventKind, RawEvent};
use dirwatch::notifier::flush_notifications;

fn raw(kind: EventKind, path: &str) -> RawEvent {
    RawEvent { kind, affected_paths: vec![path.to_string()] }
}

fn note(path: &str, event_type: &str) -> ChangeNotification {
    ChangeNotification { path: path.to_string(), event_type: event_type.to_string() }
}

/// Flushes every 50 ms from `from` up to and including `until`, as a timer
/// would, and collects what comes out.
fn tick(d: &mut Debouncer, from: u64, until: u64) -> Vec<ChangeNotification> {
    let mut out = Vec::new();
    let mut now = from;
    while now <= until {
        out.extend(flush_notifications(d, now));
        now += 50;
    }
    out
}

#[test]
fn created_photo_is_notified_once() {
    let mut d = Debouncer::new();
    d.record(&raw(EventKind::Created, "/watched/photo.jpg"), 0);
    assert_eq!(tick(&mut d, 0, 450), vec![]);
    assert_eq!(tick(&mut d, 500, 2_000), vec![note("/watched/photo.jpg", "created")]);
}

#[test]
fn three_rapid_saves_are_notified_once_as_modified() {
    let mut d = Debouncer::new();
    let mut seen = Vec::new();
    d.record(&raw(EventKind::Modified, "/watched/diagram.svg"), 0);
    seen.extend(tick(&mut d, 0, 150));
    d.record(&raw(EventKind::Modified, "/watched/diagram.svg"), 200);
    seen.extend(tick(&mut d, 200, 350));
    d.record(&raw(EventKind::Modified, "/watched/diagram.svg"), 400);
    seen.extend(tick(&mut d, 400, 850));
    assert_eq!(seen, vec![]);
    assert_eq!(tick(&mut d, 900, 3_000), vec![note("/watched/diagram.svg", "modified")]);
}

#[test]
fn create_then_delete_is_notified_once_as_deleted() {
    let mut d = Debouncer::new();
    d.record(&raw(EventKind::Created, "/watched/temp.gif"), 0);
    assert_eq!(tick(&mut d, 0, 50), vec![]);
    d.record(&raw(EventKind::Removed, "/watched/temp.gif"), 100);
    assert_eq!(tick(&mut d, 100, 550), vec![]);
    assert_eq!(tick(&mut d, 600, 3_000), vec![note("/watched/temp.gif", "deleted")]);
}

#[test]
fn text_files_are_debounced_but_never_notified() {
    let mut d = Debouncer::new();
    d.record(&raw(EventKind::Created, "/watched/notes.txt"), 0);
    d.record(&raw(EventKind::Modified, "/watched/notes.txt"), 100);
    assert_eq!(d.pending_count(), 1);
    assert_eq!(tick(&mut d, 0, 3_000), vec![]);
    assert_eq!(d.pending_count(), 0);
}

#[test]
fn metadata_only_changes_are_never_notified() {
    let mut d = Debouncer::new();
    d.record(&raw(EventKind::Other, "/watched/photo.jpg"), 0);
    assert_eq!(tick(&mut d, 0, 3_000), vec![]);
    assert_eq!(d.pending_count(), 0);
}

#[test]
fn mixed_burst_notifies_images_only() {
    let mut d = Debouncer::new();
    d.record(&raw(EventKind::Created, "/watched/a.png"), 0);
    d.record(&raw(EventKind::Created, "/watched/a.txt"), 0);
    d.record(&raw(EventKind::Removed, "/watched/b.webp"), 0);
    d.record(&raw(EventKind::Modified, "/watched/c.BMP"), 0);
    assert_eq!(
        flush_notifications(&mut d, 500),
        vec![note("/watched/a.png", "created"), note("/watched/b.webp", "deleted")]
    );
    assert_eq!(d.pending_count(), 0);
}
