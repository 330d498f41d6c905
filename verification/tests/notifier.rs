use dirwatch::event::{ChangeNotification, CoalescedEvent, EventKind};
use dirwatch::notifier::{event_type_of, notification_for, notifications_for};

fn coalesced(path: &str, kind: EventKind) -> CoalescedEvent {
    CoalescedEvent { path: path.to_string(), kind }
}

fn note(path: &str, event_type: &str) -> ChangeNotification {
    ChangeNotification { path: path.to_string(), event_type: event_type.to_string() }
}

#[test]
fn kinds_map_to_the_three_event_types() {
    assert_eq!(event_type_of(EventKind::Created), Some("created"));
    assert_eq!(event_type_of(EventKind::Modified), Some("modified"));
    assert_eq!(event_type_of(EventKind::Removed), Some("deleted"));
    assert_eq!(event_type_of(EventKind::Other), None);
}

#[test]
fn removed_png_is_reported_as_deleted() {
    assert_eq!(
        notification_for(&coalesced("/w/shot.png", EventKind::Removed)),
        Some(note("/w/shot.png", "deleted"))
    );
}

#[test]
fn text_file_is_never_reported() {
    for kind in [EventKind::Created, EventKind::Modified, EventKind::Removed, EventKind::Other] {
        assert_eq!(notification_for(&coalesced("/w/notes.txt", kind)), None);
    }
}

#[test]
fn image_with_other_kind_is_dropped() {
    assert_eq!(notification_for(&coalesced("/w/shot.png", EventKind::Other)), None);
}

#[test]
fn upper_case_suffix_is_dropped() {
    assert_eq!(notification_for(&coalesced("/w/shot.JPG", EventKind::Created)), None);
    assert_eq!(
        notification_for(&coalesced("/w/shot.jpg", EventKind::Created)),
        Some(note("/w/shot.jpg", "created"))
    );
}

#[test]
fn path_is_passed_on_unchanged() {
    let path = "C:\\Users\\me\\Pictures\\..\\Pictures\\caf\u{e9} 1.jpeg";
    assert_eq!(
        notification_for(&coalesced(path, EventKind::Modified)),
        Some(note(path, "modified"))
    );
}

#[test]
fn batch_keeps_order_and_drops_what_does_not_pass() {
    let events = vec![
        coalesced("/w/1.gif", EventKind::Created),
        coalesced("/w/2.txt", EventKind::Created),
        coalesced("/w/3.svg", EventKind::Other),
        coalesced("/w/4.bmp", EventKind::Removed),
        coalesced("/w/5.webp", EventKind::Modified),
    ];
    assert_eq!(
        notifications_for(&events),
        vec![note("/w/1.gif", "created"), note("/w/4.bmp", "deleted"), note("/w/5.webp", "modified")]
    );
}

#[test]
fn empty_batch_gives_no_notifications() {
    assert_eq!(notifications_for(&vec![]), vec![]);
}

#[test]
fn every_notification_is_an_image_change() {
    let suffixes = ["png", "jpg", "jpeg", "gif", "svg", "webp", "bmp", "txt", "md", "PNG", ""];
    let kinds = [EventKind::Created, EventKind::Modified, EventKind::Removed, EventKind::Other];
    let mut events = Vec::new();
    for s in suffixes {
        for k in kinds {
            events.push(coalesced(&format!("/w/file.{}", s), k));
        }
    }
    let notes = notifications_for(&events);
    assert_eq!(notes.len(), 7 * 3);
    for n in notes {
        assert!(dirwatch::filter::admits(&n.path));
        assert!(matches!(n.event_type.as_str(), "created" | "modified" | "deleted"));
    }
}
