use qmk_tui::app::Action;
use qmk_tui::qmk::{
    default_home_from, default_qmk_home, join_path, parse_qmk_home, KeyboardSource, QmkAction, QmkCommandOutput,
    QmkError, QmkRequest,
};

#[test]
fn rejects_blank_keymap() {
    let request = QmkRequest::new(None, "planck/rev6", "  \t");
    assert!(matches!(request.validate(), Err(QmkError::MissingKeymap)));
}

#[test]
fn missing_keyboard_is_reported_before_missing_keymap() {
    let request = QmkRequest::new(None, " ", "");
    assert!(matches!(request.check(true), Err(QmkError::MissingKeyboard)));
}

#[test]
fn rejects_qmk_home_that_does_not_exist() {
    let home = String::from("/no/such/qmk/home/anywhere");
    let request = QmkRequest::new(Some(home.clone()), "planck/rev6", "default");
    match request.validate() {
        Err(QmkError::InvalidQmkHome(path)) => assert_eq!(path, home),
        other => panic!("unexpected outcome {:?}", other),
    }
}

#[test]
fn accepts_existing_qmk_home() {
    let request = QmkRequest::new(Some(String::from("/")), "planck/rev6", "default");
    assert!(request.validate().is_ok());
    assert!(request.check(true).is_ok());
    assert!(matches!(request.check(false), Err(QmkError::InvalidQmkHome(_))));
}

#[test]
fn error_messages() {
    assert_eq!(QmkError::MissingKeyboard.message(), "keyboard is required");
    assert_eq!(QmkError::MissingKeymap.message(), "keymap is required");
    assert_eq!(
        QmkError::InvalidQmkHome(String::from("/tmp/x")).message(),
        "QMK home directory does not exist: /tmp/x"
    );
    assert_eq!(
        QmkError::Io(String::from("not found")).message(),
        "failed to run qmk: not found"
    );
}

#[test]
fn command_names_and_labels() {
    assert_eq!(QmkAction::Compile.command_name(), "compile");
    assert_eq!(QmkAction::Flash.command_name(), "flash");
    assert_eq!(KeyboardSource::Userspace.label(), "Userspace");
    assert_eq!(KeyboardSource::QmkRepo.label(), "QMK repo");
    assert_eq!(QmkAction::from(Action::Flash), QmkAction::Flash);
    assert_eq!(QmkAction::from(Action::Compile), QmkAction::Compile);
    assert_eq!(Action::Compile.label(), "Compile keymap");
    assert_eq!(
        Action::Flash.description(),
        "Runs qmk flash -kb <keyboard> -km <keymap>"
    );
}

#[test]
fn output_succeeds_only_with_status_zero() {
    let output = |code| QmkCommandOutput {
        status_code: code,
        stdout: String::new(),
        stderr: String::new(),
    };
    assert!(output(Some(0)).succeeded());
    assert!(!output(Some(2)).succeeded());
    assert!(!output(None).succeeded());
}

#[test]
fn joins_paths_like_pathbuf() {
    assert_eq!(join_path("/home/u", "qmk"), "/home/u/qmk");
    assert_eq!(join_path("/home/u/", "qmk"), "/home/u/qmk");
    assert_eq!(join_path("/home/u", "/opt/qmk"), "/opt/qmk");
    assert_eq!(join_path("", "qmk"), "qmk");
    for (base, rest) in [("/a/b", "c/d"), ("rel", "x"), ("/a/", "/b"), ("/", "y")] {
        let expected = std::path::Path::new(base).join(rest);
        assert_eq!(join_path(base, rest), expected.to_string_lossy());
    }
}

#[test]
fn parses_qmk_home_input() {
    let home = Some(String::from("/home/me"));
    assert_eq!(parse_qmk_home("   ", &home), None);
    assert_eq!(parse_qmk_home("", &None), None);
    assert_eq!(
        parse_qmk_home("  ~/qmk_firmware ", &home),
        Some(String::from("/home/me/qmk_firmware"))
    );
    assert_eq!(parse_qmk_home("~", &home), Some(String::from("/home/me")));
    assert_eq!(parse_qmk_home("~", &None), Some(String::from("~")));
    assert_eq!(parse_qmk_home("~/x", &None), Some(String::from("~/x")));
    assert_eq!(parse_qmk_home("~user/x", &home), Some(String::from("~user/x")));
    assert_eq!(parse_qmk_home("/srv/qmk", &home), Some(String::from("/srv/qmk")));
}

#[test]
fn default_qmk_home_needs_an_existing_directory() {
    assert_eq!(default_qmk_home(&None), None);
    assert_eq!(default_qmk_home(&Some(String::from("/no/such/home/dir"))), None);
}

#[test]
fn default_home_is_qmk_firmware_under_home_when_it_exists() {
    assert_eq!(
        default_home_from(&Some(String::from("/home/me")), true),
        Some(String::from("/home/me/qmk_firmware"))
    );
    assert_eq!(default_home_from(&Some(String::from("/home/me")), false), None);
    assert_eq!(default_home_from(&None, true), None);
}
