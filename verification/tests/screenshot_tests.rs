use xos_apps::errors::{ArchiveError, ControlCenterError, FileManagerError, NotesError, ScreenshotError};
use xos_apps::screenshot::{
    capture_done_message, clipboard_temp_name, grim_arguments, help_text, region_from_slurp, run_cli, save_path,
    tool_result, CaptureMode, CaptureTarget, CliAction,
};

fn args(list: &[&str]) -> Vec<String> {
    list.iter().map(|s| s.to_string()).collect()
}

fn action(list: &[&str]) -> Option<CliAction> {
    run_cli(&args(list)).ok()
}

#[test]
fn no_arguments_capture_a_region_to_the_clipboard() {
    assert_eq!(action(&[]), Some(CliAction::Capture(CaptureMode::Region, CaptureTarget::Clipboard)));
}

#[test]
fn the_last_option_wins() {
    assert_eq!(action(&["--full", "-s"]), Some(CliAction::Capture(CaptureMode::FullScreen, CaptureTarget::Save))
    );
    assert_eq!(action(&["--fullscreen", "--region", "--save", "-c"]), Some(CliAction::Capture(CaptureMode::Region, CaptureTarget::Clipboard))
    );
}

#[test]
fn help_stops_reading() {
    assert_eq!(action(&["--full", "-h", "--bogus"]), Some(CliAction::Help));
    assert_eq!(action(&["--help"]), Some(CliAction::Help));
    assert_eq!(action(&["-s", "--bogus", "--help"]), None);
    assert!(help_text().starts_with("xos-screenshot — XOS screenshot tool\n\nUsage:"));
    assert!(help_text().ends_with("Run without arguments to open the GUI."));
}

#[test]
fn an_unknown_argument_is_named() {
    let r = run_cli(&args(&["--save", "--bogus", "--help"]));
    match r {
        Err(ScreenshotError::Capture(m)) => assert_eq!(m, "Unknown argument: --bogus"),
        other => panic!("unexpected {:?}", other),
    }
    let e = ScreenshotError::Capture("boom".to_string());
    assert_eq!(e.message(), "boom");
}

#[test]
fn slurp_outcomes() {
    assert_eq!(region_from_slurp(false, "10,10 5x5"), Err("Region selection cancelled".to_string()));
    assert_eq!(region_from_slurp(true, "  \n"), Err("No region selected".to_string()));
    assert_eq!(region_from_slurp(true, " 10,20 300x400\n"), Ok("10,20 300x400".to_string()));
}

#[test]
fn grim_is_given_the_region() {
    assert!(grim_arguments(CaptureMode::FullScreen, "1,1 2x2").is_empty());
    assert_eq!(grim_arguments(CaptureMode::Region, "1,1 2x2"), vec!["-g".to_string(), "1,1 2x2".to_string()]);
}

#[test]
fn tool_failures_name_the_tool() {
    assert_eq!(tool_result(true, "grim"), Ok(()));
    assert_eq!(tool_result(false, "wl-copy"), Err("wl-copy exited with an error".to_string()));
}

#[test]
fn file_names() {
    assert_eq!(save_path("/home/u", 1700000000), "/home/u/Pictures/screenshot-1700000000.png");
    assert_eq!(save_path("/home/u/", 0), "/home/u/Pictures/screenshot-0.png");
    assert_eq!(clipboard_temp_name(1234567), "xos-screenshot-1234567.png");
}

#[test]
fn done_messages() {
    assert_eq!(capture_done_message(CaptureTarget::Clipboard), "Screenshot copied to clipboard");
    assert_eq!(capture_done_message(CaptureTarget::Save), "Screenshot saved to Pictures");
}

#[test]
fn error_messages() {
    assert_eq!(ArchiveError::Storage("x".into()).message(), "Storage error: x");
    assert_eq!(ArchiveError::AppRun("x".into()).message(), "App run error: x");
    assert_eq!(ArchiveError::Operation("x".into()).message(), "Operation error: x");
    assert_eq!(ControlCenterError::AppRun("x".into()).message(), "Control Center failed: x");
    assert_eq!(FileManagerError::GtkInit("x".into()).message(), "GTK init failed: x");
    assert_eq!(FileManagerError::AppRun("x".into()).message(), "Application run failed: x");
    assert_eq!(FileManagerError::Operation("x".into()).message(), "File operation failed: x");
    assert_eq!(NotesError::Storage("x".into()).message(), "Notes storage error: x");
    assert_eq!(NotesError::AppRun("x".into()).message(), "Notes app error: x");
}
