use dirwatch::watcher::{begin_watch, WatchError, WatchRequest, WatcherRegistry};

fn request(path: &str) -> WatchRequest {
    WatchRequest { directory_path: path.to_string() }
}

#[test]
fn missing_directory_is_rejected() {
    let rejected = begin_watch(request("/no/such/dir"), false);
    assert_eq!(rejected.unwrap_err(), WatchError::PathNotFound);
}

#[test]
fn existing_directory_is_admitted_with_its_path() {
    let admitted = begin_watch(request("/home/me/Pictures"), true).unwrap();
    assert_eq!(admitted.directory_path(), "/home/me/Pictures");
}

#[test]
fn successful_setup_is_registered() {
    let mut registry: WatcherRegistry<u32> = WatcherRegistry::new();
    assert_eq!(registry.len(), 0);
    let pending = begin_watch(request("/a"), true).unwrap();
    assert_eq!(registry.complete_watch(pending, Ok(7)), Ok(()));
    assert_eq!(registry.len(), 1);
}

#[test]
fn failed_setup_is_reported_and_not_registered() {
    let mut registry: WatcherRegistry<u32> = WatcherRegistry::new();
    let pending = begin_watch(request("/a"), true).unwrap();
    assert_eq!(
        registry.complete_watch(pending, Err("permission denied".to_string())),
        Err(WatchError::WatchSetupFailed("permission denied".to_string()))
    );
    assert_eq!(registry.len(), 0);
}

#[test]
fn watches_of_one_directory_accumulate() {
    let mut registry: WatcherRegistry<&str> = WatcherRegistry::new();
    for handle in ["first", "second", "third"] {
        let pending = begin_watch(request("/same"), true).unwrap();
        assert_eq!(registry.complete_watch(pending, Ok(handle)), Ok(()));
    }
    assert_eq!(registry.len(), 3);
}

#[test]
fn a_failure_does_not_disturb_earlier_watches() {
    let mut registry: WatcherRegistry<u8> = WatcherRegistry::new();
    let first = begin_watch(request("/a"), true).unwrap();
    registry.complete_watch(first, Ok(1)).unwrap();
    let second = begin_watch(request("/b"), true).unwrap();
    assert!(registry.complete_watch(second, Err("too many watches".to_string())).is_err());
    assert!(begin_watch(request("/c"), false).is_err());
    assert_eq!(registry.len(), 1);
}
