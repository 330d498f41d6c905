use dirwatch::file_manager::{plan_reveal, Platform, RevealCommand, RevealError};
use dirwatch::startup::{is_document, startup_file, StartupFile};

fn args(values: &[&str]) -> Vec<String> {
    values.iter().map(|v| v.to_string()).collect()
}

#[test]
fn document_suffixes() {
    assert!(is_document("notes.md"));
    assert!(is_document("notes.markdown"));
    assert!(is_document("notes.txt"));
    assert!(!is_document("notes.MD"));
    assert!(!is_document("notes.png"));
    assert!(!is_document("md"));
}

#[test]
fn startup_file_is_the_first_argument_if_a_document() {
    assert_eq!(startup_file(&args(&["app", "/d/readme.md"])), Some("/d/readme.md".to_string()));
    assert_eq!(startup_file(&args(&["app", "a.txt", "b.md"])), Some("a.txt".to_string()));
}

#[test]
fn startup_file_is_absent_otherwise() {
    assert_eq!(startup_file(&args(&[])), None);
    assert_eq!(startup_file(&args(&["app.md"])), None);
    assert_eq!(startup_file(&args(&["app", "photo.png"])), None);
    assert_eq!(startup_file(&args(&["app", "--flag", "b.md"])), None);
}

#[test]
fn startup_file_is_handed_over_once() {
    let mut held = StartupFile::new(Some("/d/readme.md".to_string()));
    assert_eq!(held.take(), Some("/d/readme.md".to_string()));
    assert_eq!(held.take(), None);
    assert_eq!(held.take(), None);
}

#[test]
fn no_startup_file_hands_over_nothing() {
    let mut held = StartupFile::new(None);
    assert_eq!(held.take(), None);
}

#[test]
fn windows_selects_the_file() {
    assert_eq!(
        plan_reveal(Platform::Windows, "C:\\pics\\a.png", None),
        Ok(RevealCommand { program: "explorer".to_string(), args: args(&["/select,", "C:\\pics\\a.png"]) })
    );
}

#[test]
fn macos_reveals_the_file() {
    assert_eq!(
        plan_reveal(Platform::MacOs, "/pics/a.png", Some("/pics")),
        Ok(RevealCommand { program: "open".to_string(), args: args(&["-R", "/pics/a.png"]) })
    );
}

#[test]
fn linux_opens_the_parent_directory() {
    assert_eq!(
        plan_reveal(Platform::Linux, "/pics/a.png", Some("/pics")),
        Ok(RevealCommand { program: "xdg-open".to_string(), args: args(&["/pics"]) })
    );
}

#[test]
fn linux_needs_a_parent_directory() {
    assert_eq!(plan_reveal(Platform::Linux, "/", None), Err(RevealError::NoParentDirectory));
}
