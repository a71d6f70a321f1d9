use qmk_tui::discovery::{
    check_discovery_home, discovered_keyboards, is_ignored_dir, user_dir_names, walk_dir_path, is_keyboard_dir, keyboard_name, repo_keyboard_root,
    sort_and_dedup, userspace_keyboard_roots, DirEntryInfo, KeyboardWalk,
};
use qmk_tui::qmk::{Keyboard, KeyboardSource, QmkError};

fn dir(name: &str) -> DirEntryInfo {
    DirEntryInfo { name: name.to_string(), is_dir: true, is_file: false }
}

fn file(name: &str) -> DirEntryInfo {
    DirEntryInfo { name: name.to_string(), is_dir: false, is_file: true }
}

fn names(v: &[&str]) -> Vec<String> {
    v.iter().map(|s| s.to_string()).collect()
}

#[test]
fn sorts_and_drops_repeated_names() {
    assert_eq!(sort_and_dedup(names(&["planck/rev6", "acme/mini", "planck/rev6"])), names(&["acme/mini", "planck/rev6"]));
    assert!(sort_and_dedup(Vec::new()).is_empty());
    assert_eq!(sort_and_dedup(names(&["b", "B", "a"])), names(&["B", "a", "b"]));
}

#[test]
fn ignored_directories() {
    for name in [".git", ".build", "build", "keymaps", "node_modules", "target"] {
        assert!(is_ignored_dir(name));
    }
    assert!(!is_ignored_dir("keyboards"));
    assert!(!is_ignored_dir("Build"));
}

#[test]
fn keyboard_dirs_have_a_definition_file() {
    assert!(is_keyboard_dir(&vec![dir("keymaps"), file("keyboard.json")]));
    assert!(is_keyboard_dir(&vec![file("info.json")]));
    assert!(!is_keyboard_dir(&vec![dir("info.json"), file("rules.mk")]));
    assert!(!is_keyboard_dir(&Vec::new()));
}

#[test]
fn keyboard_names_use_forward_slashes() {
    assert_eq!(keyboard_name("acme/mini"), Some(String::from("acme/mini")));
    assert_eq!(keyboard_name("acme\\mini"), Some(String::from("acme/mini")));
    assert_eq!(keyboard_name(""), None);
}

#[test]
fn roots_of_userspace_and_repo() {
    assert_eq!(
        userspace_keyboard_roots("/q", &names(&["wes", "ann"])),
        names(&[
            "/q/userspace/keyboards",
            "/q/user_space/keyboards",
            "/q/users/wes/keyboards",
            "/q/users/ann/keyboards"
        ])
    );
    assert_eq!(repo_keyboard_root("/q/"), "/q/keyboards");
}

#[test]
fn walk_finds_keyboards_and_skips_ignored_dirs() {
    let mut walk = KeyboardWalk::new();
    walk.begin_root(true);
    assert_eq!(walk.next_dir(), Some(String::new()));
    walk.visit("", &vec![dir("acme"), dir(".git"), file("readme.md")]);
    assert_eq!(walk.next_dir(), Some(String::from("acme")));
    walk.visit("acme", &vec![dir("mini"), file("info.json")]);
    assert_eq!(walk.next_dir(), Some(String::from("acme/mini")));
    walk.visit("acme/mini", &vec![file("keyboard.json"), dir("keymaps")]);
    assert_eq!(walk.next_dir(), None);
    let found = walk.into_keyboards(KeyboardSource::QmkRepo);
    assert_eq!(
        found,
        vec![
            Keyboard { name: String::from("acme"), source: KeyboardSource::QmkRepo },
            Keyboard { name: String::from("acme/mini"), source: KeyboardSource::QmkRepo },
        ]
    );
}

#[test]
fn root_itself_is_never_a_keyboard() {
    let mut walk = KeyboardWalk::new();
    walk.begin_root(true);
    let rel = walk.next_dir().unwrap();
    walk.visit(&rel, &vec![file("keyboard.json")]);
    assert!(walk.into_keyboards(KeyboardSource::Userspace).is_empty());
}

#[test]
fn discovered_userspace_keyboards_come_before_repo_keyboards() {
    let mut userspace = KeyboardWalk::new();
    for _ in 0..2 {
        userspace.begin_root(true);
        let rel = userspace.next_dir().unwrap();
        userspace.visit(&rel, &vec![dir("acme")]);
        let rel = userspace.next_dir().unwrap();
        userspace.visit(&rel, &vec![dir("mini")]);
        let rel = userspace.next_dir().unwrap();
        userspace.visit(&rel, &vec![file("keyboard.json")]);
        assert_eq!(userspace.next_dir(), None);
    }
    let mut repo = KeyboardWalk::new();
    repo.begin_root(true);
    let rel = repo.next_dir().unwrap();
    repo.visit(&rel, &vec![dir("planck")]);
    let rel = repo.next_dir().unwrap();
    repo.visit(&rel, &vec![dir("rev6")]);
    let rel = repo.next_dir().unwrap();
    repo.visit(&rel, &vec![file("keyboard.json")]);

    assert_eq!(
        discovered_keyboards(userspace, repo),
        vec![
            Keyboard { name: String::from("acme/mini"), source: KeyboardSource::Userspace },
            Keyboard { name: String::from("planck/rev6"), source: KeyboardSource::QmkRepo },
        ]
    );
}

#[test]
fn subdirectories_are_walked_in_name_order() {
    let mut walk = KeyboardWalk::new();
    walk.begin_root(true);
    let rel = walk.next_dir().unwrap();
    walk.visit(&rel, &vec![dir("zeta"), dir("alpha"), dir("build"), dir("mid")]);
    assert_eq!(walk.next_dir(), Some(String::from("alpha")));
    walk.visit("alpha", &vec![dir("b2"), dir("b1")]);
    assert_eq!(walk.next_dir(), Some(String::from("alpha/b1")));
    assert_eq!(walk.next_dir(), Some(String::from("alpha/b2")));
    assert_eq!(walk.next_dir(), Some(String::from("mid")));
    assert_eq!(walk.next_dir(), Some(String::from("zeta")));
    assert_eq!(walk.next_dir(), None);
}

#[test]
fn missing_roots_are_skipped() {
    let mut walk = KeyboardWalk::new();
    walk.begin_root(false);
    assert_eq!(walk.next_dir(), None);
}

#[test]
fn discovery_home_must_be_a_directory() {
    assert!(check_discovery_home("/q", true).is_ok());
    match check_discovery_home("/q", false) {
        Err(QmkError::InvalidQmkHome(path)) => assert_eq!(path, "/q"),
        other => panic!("unexpected outcome {:?}", other),
    }
}

#[test]
fn user_dirs_are_the_directory_entries() {
    assert_eq!(
        user_dir_names(&vec![dir("wes"), file("notes.txt"), dir("ann")]),
        names(&["wes", "ann"])
    );
    assert!(user_dir_names(&Vec::new()).is_empty());
}

#[test]
fn walk_paths_start_at_the_root() {
    assert_eq!(walk_dir_path("/q/keyboards", ""), "/q/keyboards");
    assert_eq!(walk_dir_path("/q/keyboards", "acme/mini"), "/q/keyboards/acme/mini");
}
