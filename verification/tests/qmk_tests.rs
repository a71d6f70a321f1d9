use qmk_tui::qmk::{build_qmk_args, QmkAction, QmkError, QmkRequest};

#[test]
fn qmk_tests_builds_compile_args() {
    let request = QmkRequest::new(None, "splitkb/kyria/rev3", "default");

    assert_eq!(
        build_qmk_args(QmkAction::Compile, &request),
        vec!["compile", "-kb", "splitkb/kyria/rev3", "-km", "default"]
    );
}

#[test]
fn qmk_tests_builds_flash_args() {
    let request = QmkRequest::new(None, "planck/rev6", "custom");

    assert_eq!(
        build_qmk_args(QmkAction::Flash, &request),
        vec!["flash", "-kb", "planck/rev6", "-km", "custom"]
    );
}

#[test]
fn qmk_tests_rejects_missing_keyboard() {
    let request = QmkRequest::new(None, "", "default");

    assert!(matches!(request.validate(), Err(QmkError::MissingKeyboard)));
}

#[test]
fn qmk_builds_compile_args() {
    let request = QmkRequest::new(None, "splitkb/kyria/rev3", "default");

    assert_eq!(
        build_qmk_args(QmkAction::Compile, &request),
        vec!["compile", "-kb", "splitkb/kyria/rev3", "-km", "default"]
    );
}

#[test]
fn qmk_builds_flash_args() {
    let request = QmkRequest::new(None, "planck/rev6", "custom");

    assert_eq!(
        build_qmk_args(QmkAction::Flash, &request),
        vec!["flash", "-kb", "planck/rev6", "-km", "custom"]
    );
}

#[test]
fn qmk_rejects_missing_keyboard() {
    let request = QmkRequest::new(None, "", "default");

    assert!(matches!(request.validate(), Err(QmkError::MissingKeyboard)));
}
