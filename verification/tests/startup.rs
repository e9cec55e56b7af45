use mdfiles::startup::{StartupBridge, MAIN_WINDOW, OPEN_EVENT, READY_DELAY_MS};

fn args(values: &[&str]) -> Vec<String> {
    values.iter().map(|value| value.to_string()).collect()
}

#[test]
fn a_markdown_argument_is_announced_exactly_once() {
    let mut bridge = StartupBridge::launch(&args(&["editor", "notes.md"]));
    assert_eq!(bridge, StartupBridge::PathCaptured("notes.md".to_string()));
    assert!(bridge.is_pending());
    let mut notices = Vec::new();
    for _ in 0..5 {
        if let Some(path) = bridge.ui_ready() {
            notices.push(path);
        }
    }
    assert_eq!(notices, vec!["notes.md".to_string()]);
    assert_eq!(bridge, StartupBridge::Delivered);
    assert!(!bridge.is_pending());
}

#[test]
fn the_first_report_of_readiness_delivers() {
    let mut bridge = StartupBridge::launch(&args(&["editor", "notes.md"]));
    assert_eq!(bridge.ui_ready(), Some("notes.md".to_string()));
    assert_eq!(bridge, StartupBridge::Delivered);
    assert_eq!(bridge.ui_ready(), None);
    assert_eq!(bridge, StartupBridge::Delivered);
}

#[test]
fn another_argument_is_never_announced() {
    let mut bridge = StartupBridge::launch(&args(&["editor", "notes.txt"]));
    assert_eq!(bridge, StartupBridge::Idle);
    assert!(!bridge.is_pending());
    for _ in 0..3 {
        assert_eq!(bridge.ui_ready(), None);
        assert_eq!(bridge, StartupBridge::Idle);
    }
}

#[test]
fn no_argument_is_never_announced() {
    let mut bridge = StartupBridge::launch(&args(&["editor"]));
    assert_eq!(bridge, StartupBridge::Idle);
    assert_eq!(bridge.ui_ready(), None);
    assert_eq!(bridge, StartupBridge::Idle);
}

#[test]
fn no_arguments_at_all_leave_the_bridge_idle() {
    let mut bridge = StartupBridge::launch(&args(&[]));
    assert_eq!(bridge, StartupBridge::Idle);
    assert_eq!(bridge.ui_ready(), None);
}

#[test]
fn the_long_extension_is_captured_too() {
    let bridge = StartupBridge::launch(&args(&["editor", "/home/me/notes.markdown"]));
    assert_eq!(bridge, StartupBridge::PathCaptured("/home/me/notes.markdown".to_string()));
}

#[test]
fn only_the_first_argument_counts() {
    assert_eq!(
        StartupBridge::launch(&args(&["editor", "a.md", "b.md"])),
        StartupBridge::PathCaptured("a.md".to_string())
    );
    assert_eq!(StartupBridge::launch(&args(&["editor", "a.txt", "b.md"])), StartupBridge::Idle);
    assert_eq!(StartupBridge::launch(&args(&["notes.md"])), StartupBridge::Idle);
}

#[test]
fn the_argument_is_matched_by_its_ending_and_case() {
    assert_eq!(StartupBridge::launch(&args(&["editor", "notes.MD"])), StartupBridge::Idle);
    assert_eq!(StartupBridge::launch(&args(&["editor", "notes.md "])), StartupBridge::Idle);
    assert_eq!(StartupBridge::launch(&args(&["editor", ""])), StartupBridge::Idle);
    assert_eq!(
        StartupBridge::launch(&args(&["editor", ".md"])),
        StartupBridge::PathCaptured(".md".to_string())
    );
}

#[test]
fn a_captured_path_waits_until_the_interface_is_ready() {
    let bridge = StartupBridge::launch(&args(&["editor", "notes.md"]));
    let kept = bridge.clone();
    assert!(kept.is_pending());
    assert_eq!(kept, bridge);
}

#[test]
fn the_announcement_has_its_fixed_names() {
    assert_eq!(OPEN_EVENT, "file-open-from-cli");
    assert_eq!(MAIN_WINDOW, "main");
    assert_eq!(READY_DELAY_MS, 500);
}
