//! QMK requests and their validation, the command arguments for a QMK action,
//! QMK home resolution, and the decisions of keyboard discovery.

use vstd::prelude::*;

use crate::text::{trim, trim_seq};

verus! {

/// What a QMK command does.
#[derive(Clone, Copy, Debug, PartialEq, Eq, Structural)]
pub enum QmkAction {
    Compile,
    Flash,
}

/// The `qmk` subcommand of an action.
pub open spec fn command_name_seq(action: QmkAction) -> Seq<char> {
    match action {
        QmkAction::Compile => "compile"@,
        QmkAction::Flash => "flash"@,
    }
}

impl QmkAction {
    pub fn command_name(self) -> (r: &'static str)
        ensures
            r@ == command_name_seq(self),
    {
        match self {
            QmkAction::Compile => "compile",
            QmkAction::Flash => "flash",
        }
    }
}

/// Where a keyboard definition was found.
#[derive(Clone, Copy, Debug, PartialEq, Eq, Hash, Structural)]
pub enum KeyboardSource {
    Userspace,
    QmkRepo,
}

pub open spec fn source_label_seq(source: KeyboardSource) -> Seq<char> {
    match source {
        KeyboardSource::Userspace => "Userspace"@,
        KeyboardSource::QmkRepo => "QMK repo"@,
    }
}

impl KeyboardSource {
    pub fn label(self) -> (r: &'static str)
        ensures
            r@ == source_label_seq(self),
    {
        match self {
            KeyboardSource::Userspace => "Userspace",
            KeyboardSource::QmkRepo => "QMK repo",
        }
    }
}

/// A keyboard definition found under a QMK home.
#[derive(Clone, Debug, PartialEq, Eq)]
pub struct Keyboard {
    pub name: String,
    pub source: KeyboardSource,
}

pub struct KeyboardView {
    pub name: Seq<char>,
    pub source: KeyboardSource,
}

impl View for Keyboard {
    type V = KeyboardView;

    open spec fn view(&self) -> KeyboardView {
        KeyboardView { name: self.name@, source: self.source }
    }
}

impl Keyboard {
    /// A copy of this keyboard.
    pub fn duplicate(&self) -> (r: Keyboard)
        ensures
            r@ == self@,
    {
        Keyboard { name: self.name.clone(), source: self.source }
    }
}

pub open spec fn opt_text(o: Option<String>) -> Option<Seq<char>> {
    match o {
        Some(s) => Some(s@),
        None => None,
    }
}

/// What a QMK command needs: an optional QMK home, a keyboard and a keymap.
#[derive(Clone, Debug, PartialEq, Eq)]
pub struct QmkRequest {
    pub qmk_home: Option<String>,
    pub keyboard: String,
    pub keymap: String,
}

pub struct QmkRequestView {
    pub qmk_home: Option<Seq<char>>,
    pub keyboard: Seq<char>,
    pub keymap: Seq<char>,
}

impl View for QmkRequest {
    type V = QmkRequestView;

    open spec fn view(&self) -> QmkRequestView {
        QmkRequestView {
            qmk_home: opt_text(self.qmk_home),
            keyboard: self.keyboard@,
            keymap: self.keymap@,
        }
    }
}

/// Why a QMK request could not be run.
#[derive(Debug)]
pub enum QmkError {
    MissingKeyboard,
    MissingKeymap,
    InvalidQmkHome(String),
    Io(String),
}

pub enum QmkErrorView {
    MissingKeyboard,
    MissingKeymap,
    InvalidQmkHome(Seq<char>),
    Io(Seq<char>),
}

impl View for QmkError {
    type V = QmkErrorView;

    open spec fn view(&self) -> QmkErrorView {
        match self {
            QmkError::MissingKeyboard => QmkErrorView::MissingKeyboard,
            QmkError::MissingKeymap => QmkErrorView::MissingKeymap,
            QmkError::InvalidQmkHome(p) => QmkErrorView::InvalidQmkHome(p@),
            QmkError::Io(m) => QmkErrorView::Io(m@),
        }
    }
}

/// The message shown for an error.
pub open spec fn error_message_seq(e: QmkErrorView) -> Seq<char> {
    match e {
        QmkErrorView::MissingKeyboard => "keyboard is required"@,
        QmkErrorView::MissingKeymap => "keymap is required"@,
        QmkErrorView::InvalidQmkHome(p) => "QMK home directory does not exist: "@ + p,
        QmkErrorView::Io(m) => "failed to run qmk: "@ + m,
    }
}

impl QmkError {
    /// The message shown for this error.
    pub fn message(&self) -> (r: String)
        ensures
            r@ == error_message_seq(self@),
    {
        match self {
            QmkError::MissingKeyboard => "keyboard is required".to_owned(),
            QmkError::MissingKeymap => "keymap is required".to_owned(),
            QmkError::InvalidQmkHome(p) => {
                let mut m = "QMK home directory does not exist: ".to_owned();
                m.append(p.as_str());
                m
            },
            QmkError::Io(e) => {
                let mut m = "failed to run qmk: ".to_owned();
                m.append(e.as_str());
                m
            },
        }
    }
}

pub open spec fn check_view(r: Result<(), QmkError>) -> Result<(), QmkErrorView> {
    match r {
        Ok(_) => Ok(()),
        Err(e) => Err(e@),
    }
}

/// The outcome of validating `request`, where `home_is_dir` tells whether its
/// QMK home, when it has one, is an existing directory.
pub open spec fn request_check(request: QmkRequestView, home_is_dir: bool) -> Result<(), QmkErrorView> {
    if trim_seq(request.keyboard).len() == 0 {
        Err(QmkErrorView::MissingKeyboard)
    } else if trim_seq(request.keymap).len() == 0 {
        Err(QmkErrorView::MissingKeymap)
    } else {
        match request.qmk_home {
            Some(home) => if home_is_dir {
                Ok(())
            } else {
                Err(QmkErrorView::InvalidQmkHome(home))
            },
            None => Ok(()),
        }
    }
}

/// Whether a directory exists at `path`, by `std::path::Path::is_dir`. What is
/// on disk decides, so nothing is stated of the result.
#[verifier::external_body]
fn directory_exists(path: &str) -> bool {
    std::path::Path::new(path).is_dir()
}

/// The disk was asked whether `path` is a directory, and answered `answer`.
pub closed spec fn asked_is_dir(path: Seq<char>, answer: bool) -> bool {
    exists|p: &str| p@ == path && #[trigger] call_ensures(directory_exists, (p,), answer)
}

impl QmkRequest {
    pub fn new(qmk_home: Option<String>, keyboard: &str, keymap: &str) -> (r: QmkRequest)
        ensures
            r@.qmk_home == opt_text(qmk_home),
            r@.keyboard == keyboard@,
            r@.keymap == keymap@,
    {
        QmkRequest { qmk_home, keyboard: keyboard.to_owned(), keymap: keymap.to_owned() }
    }

    /// Validates the request given whether its QMK home is a directory: the
    /// keyboard and the keymap must not be blank, and a QMK home must exist.
    pub fn check(&self, home_is_dir: bool) -> (r: Result<(), QmkError>)
        ensures
            check_view(r) == request_check(self@, home_is_dir),
    {
        if trim(self.keyboard.as_str()).as_str().is_empty() {
            return Err(QmkError::MissingKeyboard);
        }
        if trim(self.keymap.as_str()).as_str().is_empty() {
            return Err(QmkError::MissingKeymap);
        }
        match &self.qmk_home {
            Some(home) => if home_is_dir {
                Ok(())
            } else {
                Err(QmkError::InvalidQmkHome(home.clone()))
            },
            None => Ok(()),
        }
    }

    /// Validates the request: a blank keyboard or keymap is reported first;
    /// then, for a request with a QMK home, the disk is asked whether that
    /// home is a directory.
    pub fn validate(&self) -> (r: Result<(), QmkError>)
        ensures
            request_check(self@, true) == request_check(self@, false) ==> check_view(r)
                == request_check(self@, true),
            request_check(self@, true) != request_check(self@, false) ==> exists|b: bool|
                #![trigger asked_is_dir(self@.qmk_home->0, b)]
                self@.qmk_home is Some && asked_is_dir(self@.qmk_home->0, b) && check_view(r)
                    == request_check(self@, b),
    {
        let first = self.check(true);
        if first.is_err() {
            return first;
        }
        match &self.qmk_home {
            Some(home) => {
                let home_is_dir = directory_exists(home.as_str());
                assert(asked_is_dir(home@, home_is_dir));
                self.check(home_is_dir)
            },
            None => first,
        }
    }
}

/// The result of running a QMK command.
#[derive(Clone, Debug, PartialEq, Eq)]
pub struct QmkCommandOutput {
    pub status_code: Option<i32>,
    pub stdout: String,
    pub stderr: String,
}

pub struct QmkCommandOutputView {
    pub status_code: Option<i32>,
    pub stdout: Seq<char>,
    pub stderr: Seq<char>,
}

impl View for QmkCommandOutput {
    type V = QmkCommandOutputView;

    open spec fn view(&self) -> QmkCommandOutputView {
        QmkCommandOutputView {
            status_code: self.status_code,
            stdout: self.stdout@,
            stderr: self.stderr@,
        }
    }
}

impl QmkCommandOutput {
    pub fn succeeded(&self) -> (r: bool)
        ensures
            r == (self.status_code == Some(0i32)),
    {
        match self.status_code {
            Some(code) => code == 0,
            None => false,
        }
    }
}

pub open spec fn views_of(v: Seq<String>) -> Seq<Seq<char>> {
    v.map_values(|s: String| s@)
}

/// The arguments of the `qmk` command for an action on a request.
pub open spec fn qmk_args_seq(action: QmkAction, request: QmkRequestView) -> Seq<Seq<char>> {
    seq![
        command_name_seq(action),
        "-kb"@,
        trim_seq(request.keyboard),
        "-km"@,
        trim_seq(request.keymap),
    ]
}

/// The `qmk` arguments are the subcommand of the action, then `-kb` with
/// the keyboard and `-km` with the keymap, each without white space at its
/// ends.
pub proof fn law_args_carry_trimmed_names(action: QmkAction, request: QmkRequestView)
    ensures
        qmk_args_seq(action, request).len() == 5,
        qmk_args_seq(action, request)[0] == command_name_seq(action),
        qmk_args_seq(action, request)[1] == "-kb"@,
        qmk_args_seq(action, request)[2] == trim_seq(request.keyboard),
        qmk_args_seq(action, request)[3] == "-km"@,
        qmk_args_seq(action, request)[4] == trim_seq(request.keymap),
        action == QmkAction::Compile ==> qmk_args_seq(action, request)[0] == "compile"@,
        action == QmkAction::Flash ==> qmk_args_seq(action, request)[0] == "flash"@,
{
}

pub fn build_qmk_args(action: QmkAction, request: &QmkRequest) -> (r: Vec<String>)
    ensures
        views_of(r@) == qmk_args_seq(action, request@),
        r@.len() == 5,
        r@[0]@ == command_name_seq(action),
        r@[2]@ == trim_seq(request.keyboard@),
        r@[4]@ == trim_seq(request.keymap@),
{
    let mut args: Vec<String> = Vec::new();
    args.push(action.command_name().to_owned());
    args.push("-kb".to_owned());
    args.push(trim(request.keyboard.as_str()));
    args.push("-km".to_owned());
    args.push(trim(request.keymap.as_str()));
    assert(views_of(args@) =~= qmk_args_seq(action, request@));
    args
}


/// `rest` joined onto `base` as `PathBuf::join` does with Unix paths: an
/// absolute `rest` replaces `base`, and a separator is put between them when
/// `base` is not empty and does not already end with one.
pub open spec fn join_path_seq(base: Seq<char>, rest: Seq<char>) -> Seq<char> {
    if rest.len() > 0 && rest[0] == '/' {
        rest
    } else if base.len() > 0 && base.last() != '/' {
        base + seq!['/'] + rest
    } else {
        base + rest
    }
}

/// `rest` joined onto the path `base`.
pub fn join_path(base: &str, rest: &str) -> (r: String)
    ensures
        r@ == join_path_seq(base@, rest@),
{
    let rest_len = rest.unicode_len();
    if rest_len > 0 && rest.get_char(0) == '/' {
        return rest.to_owned();
    }
    let base_len = base.unicode_len();
    let mut out = base.to_owned();
    if base_len > 0 && base.get_char(base_len - 1) != '/' {
        out.push('/');
    }
    out.append(rest);
    out
}

/// A path with a leading `~` standing for the home directory `home`, as the
/// shell would read it: `~` alone is `home` (or stays `~` without one), and
/// `~/rest` is `rest` under `home` when there is one.
pub open spec fn expand_tilde_seq(path: Seq<char>, home: Option<Seq<char>>) -> Seq<char> {
    if path == seq!['~'] {
        match home {
            Some(h) => h,
            None => path,
        }
    } else if path.len() >= 2 && path[0] == '~' && path[1] == '/' && home is Some {
        join_path_seq(home->0, path.skip(2))
    } else {
        path
    }
}

pub fn expand_tilde(path: &str, home: &Option<String>) -> (r: String)
    ensures
        r@ == expand_tilde_seq(path@, opt_text(*home)),
{
    let n = path.unicode_len();
    if n == 1 && path.get_char(0) == '~' {
        assert(path@ =~= seq!['~']);
        return match home {
            Some(h) => h.clone(),
            None => path.to_owned(),
        };
    }
    assert(n == 1 && path@[0] == '~' ==> path@ =~= seq!['~']);
    if n >= 2 && path.get_char(0) == '~' && path.get_char(1) == '/' {
        if let Some(h) = home {
            let rest = path.substring_char(2, n);
            assert(rest@ =~= path@.skip(2));
            return join_path(h.as_str(), rest);
        }
    }
    path.to_owned()
}

/// The QMK home that an input names: none when it is blank, else the trimmed
/// input with `~` expanded.
pub open spec fn parse_qmk_home_seq(input: Seq<char>, home: Option<Seq<char>>) -> Option<Seq<char>> {
    if trim_seq(input).len() == 0 {
        None
    } else {
        Some(expand_tilde_seq(trim_seq(input), home))
    }
}

/// The QMK home that `input` names, with `home` the user's home directory.
pub fn parse_qmk_home(input: &str, home: &Option<String>) -> (r: Option<String>)
    ensures
        opt_text(r) == parse_qmk_home_seq(input@, opt_text(*home)),
{
    let trimmed = trim(input);
    if trimmed.as_str().is_empty() {
        return None;
    }
    Some(expand_tilde(trimmed.as_str(), home))
}

/// `qmk_firmware` under the home directory `home`.
pub open spec fn default_home_candidate(home: Seq<char>) -> Seq<char> {
    join_path_seq(home, "qmk_firmware"@)
}

/// The default QMK home for the user's home directory `home`, given whether
/// `qmk_firmware` under it is an existing directory.
pub open spec fn default_home_seq(home: Option<Seq<char>>, candidate_exists: bool) -> Option<Seq<char>> {
    match home {
        Some(h) => if candidate_exists {
            Some(default_home_candidate(h))
        } else {
            None
        },
        None => None,
    }
}

/// `qmk_firmware` under the user's home directory when `candidate_exists`
/// tells that it is an existing directory.
pub fn default_home_from(home: &Option<String>, candidate_exists: bool) -> (r: Option<String>)
    ensures
        opt_text(r) == default_home_seq(opt_text(*home), candidate_exists),
{
    match home {
        Some(h) => if candidate_exists {
            Some(join_path(h.as_str(), "qmk_firmware"))
        } else {
            None
        },
        None => None,
    }
}

/// `qmk_firmware` under the user's home directory, when that is an existing
/// directory; whether it exists is looked up on disk.
pub fn default_qmk_home(home: &Option<String>) -> (r: Option<String>)
    ensures
        home is None ==> r is None,
        home is Some ==> exists|b: bool|
            #![trigger asked_is_dir(default_home_candidate(home->0@), b)]
            asked_is_dir(default_home_candidate(home->0@), b) && opt_text(r) == default_home_seq(
                opt_text(*home),
                b,
            ),
{
    match home {
        Some(h) => {
            let candidate = join_path(h.as_str(), "qmk_firmware");
            let candidate_exists = directory_exists(candidate.as_str());
            assert(asked_is_dir(default_home_candidate(h@), candidate_exists));
            default_home_from(home, candidate_exists)
        },
        None => None,
    }
}

/// The QMK home to look for keyboards in: the one that the input names, or
/// else the default one when it exists.
pub fn keyboard_discovery_home(input: &str, home: &Option<String>) -> (r: Option<String>)
    ensures
        parse_qmk_home_seq(input@, opt_text(*home)) is Some ==> opt_text(r) == parse_qmk_home_seq(
            input@,
            opt_text(*home),
        ),
        parse_qmk_home_seq(input@, opt_text(*home)) is None && home is None ==> r is None,
        parse_qmk_home_seq(input@, opt_text(*home)) is None && home is Some ==> exists|b: bool|
            #![trigger asked_is_dir(default_home_candidate(home->0@), b)]
            asked_is_dir(default_home_candidate(home->0@), b) && opt_text(r) == default_home_seq(
                opt_text(*home),
                b,
            ),
{
    match parse_qmk_home(input, home) {
        Some(p) => Some(p),
        None => default_qmk_home(home),
    }
}

} // verus!
