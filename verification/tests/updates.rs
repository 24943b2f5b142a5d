use envy_linux::updates::{
    install_failed_dialog, no_update_channel_step, update_check_step, UpdateCheck, UpdateStep,
};

fn shown(s: UpdateStep) -> (String, String, bool) {
    match s {
        UpdateStep::Show(d) => (d.title, d.message, d.is_error),
        _ => panic!("expected a message"),
    }
}

#[test]
fn a_found_release_asks_to_install() {
    let s = update_check_step(&UpdateCheck::Found { version: "1.4.0".into() }, false);
    match s {
        UpdateStep::AskToInstall(d) => {
            assert_eq!(d.title, "Update Available");
            assert_eq!(d.message, "Envy 1.4.0 is available.\n\nInstall it now? Envy will restart.");
            assert!(!d.is_error);
        }
        _ => panic!("expected the question"),
    }
}

#[test]
fn only_a_manual_check_reports_nothing_found() {
    assert_eq!(
        shown(update_check_step(&UpdateCheck::UpToDate, true)),
        ("No Updates".to_string(), "Envy is up to date.".to_string(), false)
    );
    assert!(matches!(update_check_step(&UpdateCheck::UpToDate, false), UpdateStep::Silent));
}

#[test]
fn a_failed_background_check_is_only_logged() {
    let e = UpdateCheck::Failed { error: "offline".into() };
    assert_eq!(
        shown(update_check_step(&e, true)),
        (
            "Update Check Failed".to_string(),
            "Could not check for updates.\n\noffline".to_string(),
            true
        )
    );
    match update_check_step(&e, false) {
        UpdateStep::Log(line) => assert_eq!(line, "background update check failed: offline"),
        _ => panic!("expected a log line"),
    }
}

#[test]
fn a_failed_install_is_reported() {
    let d = install_failed_dialog("disk full");
    assert_eq!(d.title, "Update Failed");
    assert_eq!(d.message, "The update could not be installed.\n\ndisk full");
    assert!(d.is_error);
}

#[test]
fn this_build_has_no_update_channel() {
    assert_eq!(
        shown(no_update_channel_step(true)),
        (
            "No Update Channel".to_string(),
            "This Linux build has no update channel yet.\n\nTo update, pull the repository and run ./build.sh."
                .to_string(),
            false
        )
    );
    assert!(matches!(no_update_channel_step(false), UpdateStep::Silent));
}
