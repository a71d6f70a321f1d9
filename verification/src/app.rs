//! The application state: the three text inputs, focus, the action list, the
//! keyboard list, the status line and the command log, and how key presses,
//! keyboard discoveries and finished QMK commands change it.

use vstd::prelude::*;

use vstd::arithmetic::div_mod::{
    lemma_add_mod_noop, lemma_fundamental_div_mod_converse_mod, lemma_mod_multiples_vanish,
    lemma_mod_twice, lemma_small_mod,
};

use crate::cli::{Cli, CliView};
use crate::qmk::{
    command_name_seq, error_message_seq, keyboard_discovery_home, opt_text, parse_qmk_home,
    parse_qmk_home_seq, request_check, asked_is_dir, Keyboard, KeyboardSource, KeyboardView, QmkAction,
    QmkCommandOutput, QmkCommandOutputView, QmkError, QmkErrorView, QmkRequest, QmkRequestView,
};
use crate::text::{
    count_to_decimal, decimal_seq, int_decimal, int_to_decimal, join, join_seq, lines, lines_seq,
    trim, trim_seq,
};

verus! {

/// What the user can run.
#[derive(Clone, Copy, Debug, Eq, PartialEq, Structural)]
pub enum Action {
    Compile,
    Flash,
}

/// The number of actions.
pub const ACTION_COUNT: usize = 2;

pub open spec fn action_at(index: int) -> Action {
    if index == 0 {
        Action::Compile
    } else {
        Action::Flash
    }
}

pub open spec fn action_label_seq(action: Action) -> Seq<char> {
    match action {
        Action::Compile => "Compile keymap"@,
        Action::Flash => "Flash keyboard"@,
    }
}

pub open spec fn action_description_seq(action: Action) -> Seq<char> {
    match action {
        Action::Compile => "Runs qmk compile -kb <keyboard> -km <keymap>"@,
        Action::Flash => "Runs qmk flash -kb <keyboard> -km <keymap>"@,
    }
}

pub open spec fn qmk_action_of(action: Action) -> QmkAction {
    match action {
        Action::Compile => QmkAction::Compile,
        Action::Flash => QmkAction::Flash,
    }
}

impl Action {
    /// The actions in list order.
    pub fn at(index: usize) -> (r: Action)
        requires
            index < ACTION_COUNT,
        ensures
            r == action_at(index as int),
    {
        if index == 0 {
            Action::Compile
        } else {
            Action::Flash
        }
    }

    pub fn label(self) -> (r: &'static str)
        ensures
            r@ == action_label_seq(self),
    {
        match self {
            Action::Compile => "Compile keymap",
            Action::Flash => "Flash keyboard",
        }
    }

    pub fn description(self) -> (r: &'static str)
        ensures
            r@ == action_description_seq(self),
    {
        match self {
            Action::Compile => "Runs qmk compile -kb <keyboard> -km <keymap>",
            Action::Flash => "Runs qmk flash -kb <keyboard> -km <keymap>",
        }
    }
}

impl From<Action> for QmkAction {
    fn from(value: Action) -> (r: QmkAction) {
        match value {
            Action::Compile => QmkAction::Compile,
            Action::Flash => QmkAction::Flash,
        }
    }
}

impl vstd::std_specs::convert::FromSpecImpl<Action> for QmkAction {
    open spec fn obeys_from_spec() -> bool {
        true
    }

    open spec fn from_spec(value: Action) -> QmkAction {
        qmk_action_of(value)
    }
}


/// An editable line of text with a cursor between its characters.
#[derive(Debug)]
pub struct TextInput {
    label: &'static str,
    placeholder: &'static str,
    value: String,
    cursor: usize,
}

#[verifier::ext_equal]
pub struct TextInputView {
    pub label: Seq<char>,
    pub placeholder: Seq<char>,
    pub value: Seq<char>,
    /// The number of characters before the cursor.
    pub cursor: nat,
}

impl View for TextInput {
    type V = TextInputView;

    closed spec fn view(&self) -> TextInputView {
        TextInputView {
            label: self.label@,
            placeholder: self.placeholder@,
            value: self.value@,
            cursor: self.cursor as nat,
        }
    }
}

impl TextInputView {
    /// The cursor stands between characters of the value or at its end.
    pub open spec fn wf(self) -> bool {
        self.cursor <= self.value.len()
    }

    pub open spec fn with_value(self, value: Seq<char>) -> TextInputView {
        TextInputView { value, cursor: value.len(), ..self }
    }

    /// Typing `c` puts it before the cursor.
    pub open spec fn inserted(self, c: char) -> TextInputView {
        TextInputView {
            value: self.value.take(self.cursor as int) + seq![c] + self.value.skip(
                self.cursor as int,
            ),
            cursor: self.cursor + 1,
            ..self
        }
    }

    /// Backspace removes the character before the cursor.
    pub open spec fn backspaced(self) -> TextInputView {
        if self.cursor == 0 {
            self
        } else {
            TextInputView {
                value: self.value.take(self.cursor - 1 as int) + self.value.skip(self.cursor as int),
                cursor: (self.cursor - 1) as nat,
                ..self
            }
        }
    }

    /// Delete removes the character after the cursor.
    pub open spec fn deleted(self) -> TextInputView {
        if self.cursor == self.value.len() {
            self
        } else {
            TextInputView {
                value: self.value.take(self.cursor as int) + self.value.skip(self.cursor + 1 as int),
                ..self
            }
        }
    }

    pub open spec fn moved_left(self) -> TextInputView {
        if self.cursor == 0 {
            self
        } else {
            TextInputView { cursor: (self.cursor - 1) as nat, ..self }
        }
    }

    pub open spec fn moved_right(self) -> TextInputView {
        if self.cursor == self.value.len() {
            self
        } else {
            TextInputView { cursor: self.cursor + 1, ..self }
        }
    }
}

impl TextInput {
    /// The cursor stands between characters of the value or at its end.
    #[verifier::type_invariant]
    spec fn cursor_in_value(self) -> bool {
        self.cursor <= self.value@.len()
    }

    /// A text input holding `value`, with the cursor at its end.
    pub fn new(label: &'static str, placeholder: &'static str, value: &str) -> (r: TextInput)
        ensures
            r@.label == label@,
            r@.placeholder == placeholder@,
            r@.value == value@,
            r@.cursor == value@.len(),
            r@.wf(),
    {
        let cursor = value.unicode_len();
        TextInput { label, placeholder, value: value.to_owned(), cursor }
    }

    pub fn label(&self) -> (r: &'static str)
        ensures
            r@ == self@.label,
    {
        self.label
    }

    pub fn placeholder(&self) -> (r: &'static str)
        ensures
            r@ == self@.placeholder,
    {
        self.placeholder
    }

    pub fn value(&self) -> (r: &str)
        ensures
            r@ == self@.value,
    {
        self.value.as_str()
    }

    /// Replaces the value and puts the cursor at its end.
    pub fn set_value(&mut self, value: &str)
        ensures
            final(self)@ == old(self)@.with_value(value@),
            final(self)@.wf(),
    {
        let cursor = value.unicode_len();
        self.cursor = 0;
        self.value = value.to_owned();
        self.cursor = cursor;
    }

    /// The column of the cursor: the number of characters before it.
    pub fn cursor_column(&self) -> (r: usize)
        ensures
            r == self@.cursor,
    {
        self.cursor
    }

    /// The text to show: the value, or the placeholder while the value is
    /// empty.
    pub fn shown_text(&self) -> (r: &str)
        ensures
            r@ == if self@.value.len() == 0 {
                self@.placeholder
            } else {
                self@.value
            },
    {
        if self.value.as_str().is_empty() {
            self.placeholder
        } else {
            self.value.as_str()
        }
    }

    /// The cursor column inside a bordered box `area_width` cells wide: the
    /// cursor's column, but no further right than the last inner cell.
    pub fn cursor_column_in(&self, area_width: u16) -> (r: u16)
        ensures
            r == if area_width < 3 {
                0
            } else if self@.cursor < area_width - 3 {
                self@.cursor as int
            } else {
                area_width - 3
            },
    {
        let max_column: u16 = if area_width < 3 {
            0
        } else {
            area_width - 3
        };
        if self.cursor < max_column as usize {
            self.cursor as u16
        } else {
            max_column
        }
    }

    pub fn insert(&mut self, character: char)
        requires
            old(self)@.value.len() < usize::MAX,
        ensures
            final(self)@ == old(self)@.inserted(character),
            final(self)@.wf(),
    {
        proof {
            use_type_invariant(&*self);
        }
        let n = self.value.as_str().unicode_len();
        let mut next = self.value.as_str().substring_char(0, self.cursor).to_owned();
        next.push(character);
        next.append(self.value.as_str().substring_char(self.cursor, n));
        assert(next@ =~= self.value@.take(self.cursor as int) + seq![character]
            + self.value@.skip(self.cursor as int));
        self.value = next;
        self.cursor = self.cursor + 1;
    }

    pub fn backspace(&mut self)
        ensures
            final(self)@ == old(self)@.backspaced(),
            final(self)@.wf(),
    {
        proof {
            use_type_invariant(&*self);
        }
        if self.cursor == 0 {
            return;
        }
        let n = self.value.as_str().unicode_len();
        let mut next = self.value.as_str().substring_char(0, self.cursor - 1).to_owned();
        next.append(self.value.as_str().substring_char(self.cursor, n));
        self.cursor = self.cursor - 1;
        self.value = next;
    }

    pub fn delete(&mut self)
        ensures
            final(self)@ == old(self)@.deleted(),
            final(self)@.wf(),
    {
        proof {
            use_type_invariant(&*self);
        }
        let n = self.value.as_str().unicode_len();
        if self.cursor == n {
            return;
        }
        let mut next = self.value.as_str().substring_char(0, self.cursor).to_owned();
        next.append(self.value.as_str().substring_char(self.cursor + 1, n));
        self.value = next;
    }

    pub fn move_left(&mut self)
        ensures
            final(self)@ == old(self)@.moved_left(),
            final(self)@.wf(),
    {
        proof {
            use_type_invariant(&*self);
        }
        if self.cursor == 0 {
            return;
        }
        self.cursor = self.cursor - 1;
    }

    pub fn move_right(&mut self)
        ensures
            final(self)@ == old(self)@.moved_right(),
            final(self)@.wf(),
    {
        proof {
            use_type_invariant(&*self);
        }
        let n = self.value.as_str().unicode_len();
        if self.cursor == n {
            return;
        }
        self.cursor = self.cursor + 1;
    }
}

/// A line of the keyboard list: a group title or a keyboard.
#[derive(Clone, Debug, Eq, PartialEq)]
pub enum KeyboardListRow {
    Header(&'static str),
    Keyboard(Keyboard),
}

pub enum RowView {
    Header(Seq<char>),
    Keyboard(KeyboardView),
}

impl View for KeyboardListRow {
    type V = RowView;

    open spec fn view(&self) -> RowView {
        match self {
            KeyboardListRow::Header(t) => RowView::Header(t@),
            KeyboardListRow::Keyboard(k) => RowView::Keyboard(k@),
        }
    }
}

pub open spec fn row_views(rows: Seq<KeyboardListRow>) -> Seq<RowView> {
    rows.map_values(|r: KeyboardListRow| r@)
}

pub open spec fn keyboard_views(v: Seq<Keyboard>) -> Seq<KeyboardView> {
    v.map_values(|k: Keyboard| k@)
}

impl KeyboardListRow {
    pub fn is_keyboard(&self) -> (r: bool)
        ensures
            r == (self@ is Keyboard),
    {
        match self {
            KeyboardListRow::Keyboard(_) => true,
            KeyboardListRow::Header(_) => false,
        }
    }
}

/// The keyboards of `keyboards` that come from `source`, in their order.
pub open spec fn of_source(keyboards: Seq<KeyboardView>, source: KeyboardSource) -> Seq<KeyboardView>
    decreases keyboards.len(),
{
    if keyboards.len() == 0 {
        Seq::empty()
    } else {
        let rest = of_source(keyboards.drop_last(), source);
        if keyboards.last().source == source {
            rest.push(keyboards.last())
        } else {
            rest
        }
    }
}

/// A titled group of keyboard rows; an empty group has no rows at all.
pub open spec fn group_rows(title: Seq<char>, group: Seq<KeyboardView>) -> Seq<RowView> {
    if group.len() == 0 {
        Seq::empty()
    } else {
        seq![RowView::Header(title)] + group.map_values(|k: KeyboardView| RowView::Keyboard(k))
    }
}

/// The keyboard list: userspace keyboards first, then those of the QMK
/// repository, each group under its title.
pub open spec fn rows_from_seq(keyboards: Seq<KeyboardView>) -> Seq<RowView> {
    group_rows("Userspace"@, of_source(keyboards, KeyboardSource::Userspace)) + group_rows(
        "QMK repo"@,
        of_source(keyboards, KeyboardSource::QmkRepo),
    )
}

fn keyboards_of_source(keyboards: &Vec<Keyboard>, source: KeyboardSource) -> (r: Vec<Keyboard>)
    ensures
        keyboard_views(r@) == of_source(keyboard_views(keyboards@), source),
{
    let ghost all = keyboard_views(keyboards@);
    let mut out: Vec<Keyboard> = Vec::new();
    let mut i: usize = 0;
    while i < keyboards.len()
        invariant
            i <= keyboards.len(),
            all == keyboard_views(keyboards@),
            keyboard_views(out@) == of_source(all.take(i as int), source),
        decreases keyboards.len() - i,
    {
        assert(all.take(i + 1).drop_last() =~= all.take(i as int));
        assert(all.take(i + 1).last() == keyboards@[i as int]@);
        if keyboards[i].source == source {
            let k = keyboards[i].duplicate();
            let ghost prev = keyboard_views(out@);
            out.push(k);
            assert(keyboard_views(out@) =~= prev.push(k@));
        }
        i = i + 1;
    }
    assert(all.take(keyboards.len() as int) =~= all);
    out
}

fn push_keyboard_group(
    rows: &mut Vec<KeyboardListRow>,
    title: &'static str,
    keyboards: &Vec<Keyboard>,
    source: KeyboardSource,
)
    ensures
        row_views(final(rows)@) == row_views(old(rows)@) + group_rows(
            title@,
            of_source(keyboard_views(keyboards@), source),
        ),
{
    let group = keyboards_of_source(keyboards, source);
    let ghost gv = keyboard_views(group@);
    let ghost start = row_views(rows@);
    if group.len() == 0 {
        assert(row_views(rows@) =~= start + group_rows(title@, gv));
        return;
    }
    rows.push(KeyboardListRow::Header(title));
    let ghost f = |k: KeyboardView| RowView::Keyboard(k);
    let mut i: usize = 0;
    assert(row_views(rows@) =~= start + seq![RowView::Header(title@)] + gv.take(0).map_values(f));
    while i < group.len()
        invariant
            i <= group.len(),
            gv == keyboard_views(group@),
            f == (|k: KeyboardView| RowView::Keyboard(k)),
            row_views(rows@) == start + seq![RowView::Header(title@)] + gv.take(i as int).map_values(
                f,
            ),
        decreases group.len() - i,
    {
        let k = group[i].duplicate();
        let ghost prev = row_views(rows@);
        rows.push(KeyboardListRow::Keyboard(k));
        assert(row_views(rows@) =~= prev.push(RowView::Keyboard(k@)));
        assert(gv.take(i + 1).map_values(f) =~= gv.take(i as int).map_values(f).push(f(gv[i as int])));
        i = i + 1;
    }
    assert(gv.take(group.len() as int) =~= gv);
    assert(row_views(rows@) =~= start + group_rows(title@, gv));
}

/// The keyboard list for a discovery's keyboards.
pub fn keyboard_rows_from(keyboards: Vec<Keyboard>) -> (r: Vec<KeyboardListRow>)
    ensures
        row_views(r@) == rows_from_seq(keyboard_views(keyboards@)),
{
    let mut rows: Vec<KeyboardListRow> = Vec::new();
    assert(row_views(rows@) =~= Seq::empty());
    push_keyboard_group(&mut rows, "Userspace", &keyboards, KeyboardSource::Userspace);
    push_keyboard_group(&mut rows, "QMK repo", &keyboards, KeyboardSource::QmkRepo);
    assert(row_views(rows@) =~= rows_from_seq(keyboard_views(keyboards@)));
    rows
}

/// The index of the first keyboard row at or after `i`.
pub open spec fn first_keyboard_from(rows: Seq<RowView>, i: int) -> Option<nat>
    decreases rows.len() - i,
{
    if i < 0 || i >= rows.len() {
        None
    } else if rows[i] is Keyboard {
        Some(i as nat)
    } else {
        first_keyboard_from(rows, i + 1)
    }
}

pub open spec fn first_keyboard_row_seq(rows: Seq<RowView>) -> Option<nat> {
    first_keyboard_from(rows, 0)
}

fn first_keyboard_row(rows: &Vec<KeyboardListRow>) -> (r: Option<usize>)
    ensures
        r matches Some(i) ==> first_keyboard_row_seq(row_views(rows@)) == Some(i as nat),
        r is None ==> first_keyboard_row_seq(row_views(rows@)) is None,
{
    let ghost rv = row_views(rows@);
    let mut i: usize = 0;
    while i < rows.len()
        invariant
            i <= rows.len(),
            rv == row_views(rows@),
            first_keyboard_row_seq(rv) == first_keyboard_from(rv, i as int),
        decreases rows.len() - i,
    {
        if rows[i].is_keyboard() {
            return Some(i);
        }
        i = i + 1;
    }
    None
}

/// The number of keyboards of `keyboards` that come from `source`.
fn count_by_source(keyboards: &Vec<Keyboard>, source: KeyboardSource) -> (r: usize)
    ensures
        r == of_source(keyboard_views(keyboards@), source).len(),
{
    let ghost all = keyboard_views(keyboards@);
    let mut count: usize = 0;
    let mut i: usize = 0;
    while i < keyboards.len()
        invariant
            i <= keyboards.len(),
            all == keyboard_views(keyboards@),
            count == of_source(all.take(i as int), source).len(),
            count <= i,
        decreases keyboards.len() - i,
    {
        assert(all.take(i + 1).drop_last() =~= all.take(i as int));
        assert(all.take(i + 1).last() == keyboards@[i as int]@);
        if keyboards[i].source == source {
            count = count + 1;
        }
        i = i + 1;
    }
    assert(all.take(keyboards.len() as int) =~= all);
    count
}

/// The number of keyboard rows.
pub open spec fn keyboard_row_count(rows: Seq<RowView>) -> nat
    decreases rows.len(),
{
    if rows.len() == 0 {
        0
    } else {
        keyboard_row_count(rows.drop_last()) + if rows.last() is Keyboard {
            1nat
        } else {
            0nat
        }
    }
}

fn count_keyboard_rows(rows: &Vec<KeyboardListRow>) -> (r: usize)
    ensures
        r == keyboard_row_count(row_views(rows@)),
{
    let ghost rv = row_views(rows@);
    let mut count: usize = 0;
    let mut i: usize = 0;
    while i < rows.len()
        invariant
            i <= rows.len(),
            rv == row_views(rows@),
            count == keyboard_row_count(rv.take(i as int)),
            count <= i,
        decreases rows.len() - i,
    {
        assert(rv.take(i + 1).drop_last() =~= rv.take(i as int));
        if rows[i].is_keyboard() {
            count = count + 1;
        }
        i = i + 1;
    }
    assert(rv.take(rows.len() as int) =~= rv);
    count
}


/// A key of the keyboard, as far as the application tells keys apart.
#[derive(Clone, Copy, Debug, PartialEq, Eq, Structural)]
pub enum KeyCode {
    Char(char),
    F(u8),
    Esc,
    Tab,
    BackTab,
    Up,
    Down,
    Left,
    Right,
    Enter,
    Backspace,
    Delete,
    Other,
}

/// A key press: the key and whether Control was held.
#[derive(Clone, Copy, Debug, PartialEq, Eq, Structural)]
pub struct KeyEvent {
    pub code: KeyCode,
    pub control: bool,
}

impl KeyEvent {
    pub fn new(code: KeyCode, control: bool) -> (r: KeyEvent)
        ensures
            r == (KeyEvent { code, control }),
    {
        KeyEvent { code, control }
    }
}

impl From<KeyCode> for KeyEvent {
    fn from(code: KeyCode) -> (r: KeyEvent) {
        KeyEvent { code, control: false }
    }
}

impl vstd::std_specs::convert::FromSpecImpl<KeyCode> for KeyEvent {
    open spec fn obeys_from_spec() -> bool {
        true
    }

    open spec fn from_spec(code: KeyCode) -> KeyEvent {
        KeyEvent { code, control: false }
    }
}

/// What the caller is to do after a key press.
#[derive(Debug)]
pub enum AppCommand {
    Nothing,
    Quit,
    /// Look for keyboards again and hand the outcome to `refresh_keyboards`.
    RefreshKeyboards,
    Run(Action, QmkRequest),
}

pub enum CommandView {
    Nothing,
    Quit,
    RefreshKeyboards,
    Run(Action, QmkRequestView),
}

impl View for AppCommand {
    type V = CommandView;

    open spec fn view(&self) -> CommandView {
        match self {
            AppCommand::Nothing => CommandView::Nothing,
            AppCommand::Quit => CommandView::Quit,
            AppCommand::RefreshKeyboards => CommandView::RefreshKeyboards,
            AppCommand::Run(a, r) => CommandView::Run(*a, r@),
        }
    }
}

/// A message from the worker that runs QMK commands.
#[derive(Debug)]
pub enum WorkerMessage {
    Finished { action: Action, output: Result<QmkCommandOutput, QmkError> },
}

pub open spec fn output_view(r: Result<QmkCommandOutput, QmkError>) -> Result<
    QmkCommandOutputView,
    QmkErrorView,
> {
    match r {
        Ok(o) => Ok(o@),
        Err(e) => Err(e@),
    }
}

/// The outcome of looking for keyboards.
#[derive(Debug)]
pub enum KeyboardDiscovery {
    /// No QMK home was given and the default one does not exist.
    NoHome,
    Found(Vec<Keyboard>),
    Failed(QmkError),
}

pub enum DiscoveryView {
    NoHome,
    Found(Seq<KeyboardView>),
    Failed(QmkErrorView),
}

impl View for KeyboardDiscovery {
    type V = DiscoveryView;

    open spec fn view(&self) -> DiscoveryView {
        match self {
            KeyboardDiscovery::NoHome => DiscoveryView::NoHome,
            KeyboardDiscovery::Found(k) => DiscoveryView::Found(keyboard_views(k@)),
            KeyboardDiscovery::Failed(e) => DiscoveryView::Failed(e@),
        }
    }
}

/// An edit of a text input.
pub enum TextEdit {
    MoveLeft,
    MoveRight,
    Backspace,
    Delete,
    Insert(char),
}

impl TextInputView {
    pub open spec fn edited(self, edit: TextEdit) -> TextInputView {
        match edit {
            TextEdit::MoveLeft => self.moved_left(),
            TextEdit::MoveRight => self.moved_right(),
            TextEdit::Backspace => self.backspaced(),
            TextEdit::Delete => self.deleted(),
            TextEdit::Insert(c) => self.inserted(c),
        }
    }
}

pub const QMK_HOME_INPUT: usize = 0;

pub const KEYBOARD_INPUT: usize = 1;

pub const KEYMAP_INPUT: usize = 2;

pub const ACTION_FOCUS: usize = 3;

pub const KEYBOARD_LIST_FOCUS: usize = 4;

pub const FOCUS_COUNT: usize = 5;

/// The application state.
#[derive(Debug)]
pub struct App {
    inputs: Vec<TextInput>,
    focus_index: usize,
    selected_action: usize,
    keyboard_rows: Vec<KeyboardListRow>,
    selected_keyboard_row: Option<usize>,
    keyboard_status: String,
    is_running: bool,
    should_quit: bool,
    status: String,
    log: Vec<String>,
    home_dir: Option<String>,
}

#[verifier::ext_equal]
pub struct AppView {
    pub inputs: Seq<TextInputView>,
    /// 0 to 2: a text input; 3: the action list; 4: the keyboard list.
    pub focus: nat,
    pub selected_action: nat,
    pub rows: Seq<RowView>,
    pub selected_row: Option<nat>,
    pub keyboard_status: Seq<char>,
    pub running: bool,
    pub quit: bool,
    pub status: Seq<char>,
    pub log: Seq<Seq<char>>,
    /// The user's home directory, for `~` in the QMK home input.
    pub home: Option<Seq<char>>,
}

pub open spec fn opt_index(o: Option<usize>) -> Option<nat> {
    match o {
        Some(i) => Some(i as nat),
        None => None,
    }
}

pub open spec fn input_views(v: Seq<TextInput>) -> Seq<TextInputView> {
    v.map_values(|t: TextInput| t@)
}

impl View for App {
    type V = AppView;

    closed spec fn view(&self) -> AppView {
        AppView {
            inputs: input_views(self.inputs@),
            focus: self.focus_index as nat,
            selected_action: self.selected_action as nat,
            rows: row_views(self.keyboard_rows@),
            selected_row: opt_index(self.selected_keyboard_row),
            keyboard_status: self.keyboard_status@,
            running: self.is_running,
            quit: self.should_quit,
            status: self.status@,
            log: crate::qmk::views_of(self.log@),
            home: opt_text(self.home_dir),
        }
    }
}

pub open spec fn initial_input(label: Seq<char>, placeholder: Seq<char>, value: Seq<char>) -> TextInputView {
    TextInputView { label, placeholder, value, cursor: value.len() }
}

/// The state before the first keyboard discovery, for command line settings
/// and the user's home directory.
pub open spec fn initial_state(cli: CliView, home: Option<Seq<char>>) -> AppView {
    let qmk_home = match cli.qmk_home {
        Some(h) => h,
        None => Seq::empty(),
    };
    let keyboard = match cli.keyboard {
        Some(k) => k,
        None => Seq::empty(),
    };
    let keymap = match cli.keymap {
        Some(k) => k,
        None => "default"@,
    };
    AppView {
        inputs: seq![
            initial_input("QMK home"@, "Optional, e.g. ~/qmk_firmware"@, qmk_home),
            initial_input("Keyboard"@, "manufacturer/keyboard/revision"@, keyboard),
            initial_input("Keymap"@, "default"@, keymap),
        ],
        focus: 1,
        selected_action: 0,
        rows: Seq::empty(),
        selected_row: None,
        keyboard_status: "Set QMK home and press F5"@,
        running: false,
        quit: false,
        status: "Ready"@,
        log: seq!["Fill keyboard/keymap, then press Enter, c, or f."@],
        home,
    }
}

/// The index of the keyboard row reached from `start` by steps of `offset`
/// (wrapping around the list), trying steps `step` up to the list's length.
pub open spec fn scan_keyboard(rows: Seq<RowView>, start: int, offset: int, step: int) -> Option<nat>
    decreases rows.len() + 1 - step,
{
    if step < 1 || step > rows.len() {
        None
    } else {
        let index = (start + offset * step) % (rows.len() as int);
        if rows[index] is Keyboard {
            Some(index as nat)
        } else {
            scan_keyboard(rows, start, offset, step + 1)
        }
    }
}

pub open spec fn request_outcome_view(r: Result<QmkRequest, QmkError>) -> Result<QmkRequestView, QmkErrorView> {
    match r {
        Ok(q) => Ok(q@),
        Err(e) => Err(e@),
    }
}

/// The lines that a command's output adds to the log.
pub open spec fn output_log(log: Seq<Seq<char>>, output: QmkCommandOutputView) -> Seq<Seq<char>> {
    let with_stdout = if output.stdout.len() > 0 {
        log.push("stdout:"@) + lines_seq(output.stdout)
    } else {
        log
    };
    if output.stderr.len() > 0 {
        with_stdout.push("stderr:"@) + lines_seq(output.stderr)
    } else {
        with_stdout
    }
}

impl AppView {
    /// The invariant of the application state.
    pub open spec fn wf(self) -> bool {
        &&& self.inputs.len() == 3
        &&& self.focus < 5
        &&& self.selected_action < 2
        &&& self.selected_row matches Some(i) ==> i < self.rows.len() && self.rows[i as int] is Keyboard
    }

    /// No input is too long to take one more character.
    pub open spec fn has_room(self) -> bool {
        forall|i: int| 0 <= i < self.inputs.len() ==> (#[trigger] self.inputs[i]).value.len() < usize::MAX
    }

    pub open spec fn editing(self) -> bool {
        self.focus < 3
    }

    pub open spec fn focused_next(self) -> AppView {
        AppView { focus: ((self.focus + 1) % 5) as nat, ..self }
    }

    pub open spec fn focused_previous(self) -> AppView {
        AppView { focus: ((self.focus + 5 - 1) % 5) as nat, ..self }
    }

    pub open spec fn action_next(self) -> AppView {
        AppView { selected_action: ((self.selected_action + 1) % 2) as nat, ..self }
    }

    pub open spec fn action_previous(self) -> AppView {
        AppView { selected_action: ((self.selected_action + 2 - 1) % 2) as nat, ..self }
    }

    /// The state after an edit of the focused input; no change when no input
    /// has the focus.
    pub open spec fn edited(self, edit: TextEdit) -> AppView {
        if self.editing() {
            AppView {
                inputs: self.inputs.update(self.focus as int, self.inputs[self.focus as int].edited(edit)),
                ..self
            }
        } else {
            self
        }
    }

    /// The request that the inputs describe.
    pub open spec fn request(self) -> QmkRequestView {
        QmkRequestView {
            qmk_home: parse_qmk_home_seq(self.inputs[0].value, self.home),
            keyboard: self.inputs[1].value,
            keymap: self.inputs[2].value,
        }
    }

    /// The command line shown in the log for an action.
    pub open spec fn preview(self, action: Action) -> Seq<char> {
        "qmk "@ + command_name_seq(qmk_action_of(action)) + " -kb "@ + trim_seq(self.inputs[1].value)
            + " -km "@ + trim_seq(self.inputs[2].value)
    }

    /// The request that the inputs describe, or why it is invalid.
    pub open spec fn request_outcome(self, home_is_dir: bool) -> Result<QmkRequestView, QmkErrorView> {
        match request_check(self.request(), home_is_dir) {
            Ok(_) => Ok(self.request()),
            Err(e) => Err(e),
        }
    }

    /// Starting an action, where `home_is_dir` tells whether the QMK home of
    /// the request, if any, exists.
    pub open spec fn started(self, action: Action, home_is_dir: bool) -> (AppView, CommandView) {
        if self.running {
            (AppView { status: "A QMK command is already running"@, ..self }, CommandView::Nothing)
        } else {
            match request_check(self.request(), home_is_dir) {
                Ok(_) => (
                    AppView {
                        running: true,
                        status: "Running "@ + action_label_seq(action),
                        log: self.log.push("$ "@ + self.preview(action)),
                        ..self
                    },
                    CommandView::Run(action, self.request()),
                ),
                Err(e) => (
                    AppView {
                        status: error_message_seq(e),
                        log: self.log.push("Input error: "@ + error_message_seq(e)),
                        ..self
                    },
                    CommandView::Nothing,
                ),
            }
        }
    }

    /// The status and log after recording that a command of `action` gave
    /// `output`.
    pub open spec fn recorded(
        self,
        action: Action,
        output: Result<QmkCommandOutputView, QmkErrorView>,
    ) -> AppView {
        match output {
            Ok(o) => if o.status_code == Some(0i32) {
                AppView {
                    status: action_label_seq(action) + " finished successfully"@,
                    log: output_log(self.log, o),
                    ..self
                }
            } else {
                AppView {
                    status: action_label_seq(action) + " failed with status "@ + match o.status_code {
                        Some(c) => int_decimal(c as int),
                        None => "unknown"@,
                    },
                    log: output_log(self.log, o),
                    ..self
                }
            },
            Err(e) => AppView {
                status: error_message_seq(e),
                log: self.log.push("Error: "@ + error_message_seq(e)),
                ..self
            },
        }
    }

    /// The state after a command of `action` finished with `output`: nothing
    /// runs any more, and the outcome is recorded.
    pub open spec fn finished(
        self,
        action: Action,
        output: Result<QmkCommandOutputView, QmkErrorView>,
    ) -> AppView {
        AppView { running: false, ..self }.recorded(action, output)
    }

    /// The state after a keyboard discovery.
    pub open spec fn refreshed(self, discovery: DiscoveryView) -> AppView {
        match discovery {
            DiscoveryView::NoHome => AppView {
                rows: Seq::empty(),
                selected_row: None,
                keyboard_status: "Set QMK home or create ~/qmk_firmware"@,
                ..self
            },
            DiscoveryView::Found(k) => AppView {
                rows: rows_from_seq(k),
                selected_row: first_keyboard_row_seq(rows_from_seq(k)),
                keyboard_status: decimal_seq(of_source(k, KeyboardSource::Userspace).len())
                    + " userspace, "@ + decimal_seq(of_source(k, KeyboardSource::QmkRepo).len())
                    + " QMK repo"@,
                ..self
            },
            DiscoveryView::Failed(e) => AppView {
                rows: Seq::empty(),
                selected_row: None,
                keyboard_status: error_message_seq(e),
                log: self.log.push("Keyboard discovery error: "@ + error_message_seq(e)),
                ..self
            },
        }
    }

    /// The row where a search for a keyboard row starts: the selected one,
    /// else the first keyboard row, else the first row.
    pub open spec fn scan_start(self) -> int {
        match self.selected_row {
            Some(i) => i as int,
            None => match first_keyboard_row_seq(self.rows) {
                Some(i) => i as int,
                None => 0,
            },
        }
    }

    /// The state after moving the keyboard selection by `offset` rows to the
    /// next keyboard row, wrapping around.
    pub open spec fn selected_with_offset(self, offset: int) -> AppView {
        if self.rows.len() == 0 {
            AppView { selected_row: None, ..self }
        } else {
            match scan_keyboard(self.rows, self.scan_start(), offset, 1) {
                Some(i) => AppView { selected_row: Some(i), ..self },
                None => self,
            }
        }
    }

    pub open spec fn keyboard_next(self) -> AppView {
        self.selected_with_offset(1)
    }

    pub open spec fn keyboard_previous(self) -> AppView {
        self.selected_with_offset(if self.rows.len() == 0 { 0 } else { self.rows.len() - 1 })
    }

    /// The state after taking the selected keyboard into the keyboard input.
    pub open spec fn applied(self) -> AppView {
        match self.selected_row {
            Some(i) => if i < self.rows.len() && self.rows[i as int] is Keyboard {
                let name = self.rows[i as int]->Keyboard_0.name;
                AppView {
                    inputs: self.inputs.update(1, self.inputs[1].with_value(name)),
                    focus: 2,
                    status: "Selected "@ + name,
                    ..self
                }
            } else {
                self
            },
            None => self,
        }
    }

    /// The state and the command after a key press; `home_is_dir` tells
    /// whether the QMK home of a request that the key starts exists.
    pub open spec fn key_step(self, key: KeyEvent, home_is_dir: bool) -> (AppView, CommandView) {
        let code = key.code;
        let global = !self.editing();
        if key.control && code == KeyCode::Char('c') {
            (self, CommandView::Quit)
        } else if code == KeyCode::Char('q') && global {
            (self, CommandView::Quit)
        } else if code == KeyCode::Esc {
            (self, CommandView::Quit)
        } else if code == KeyCode::Tab {
            (self.focused_next(), CommandView::Nothing)
        } else if code == KeyCode::BackTab {
            (self.focused_previous(), CommandView::Nothing)
        } else if code == KeyCode::Up && self.focus == 3 {
            (self.action_previous(), CommandView::Nothing)
        } else if code == KeyCode::Down && self.focus == 3 {
            (self.action_next(), CommandView::Nothing)
        } else if code == KeyCode::Up && self.focus == 4 {
            (self.keyboard_previous(), CommandView::Nothing)
        } else if code == KeyCode::Down && self.focus == 4 {
            (self.keyboard_next(), CommandView::Nothing)
        } else if code == KeyCode::F(5) {
            (self, CommandView::RefreshKeyboards)
        } else if code == KeyCode::Char('r') && global {
            (self, CommandView::RefreshKeyboards)
        } else if code == KeyCode::Char('c') && global {
            self.started(Action::Compile, home_is_dir)
        } else if code == KeyCode::Char('f') && global {
            self.started(Action::Flash, home_is_dir)
        } else if code == KeyCode::Enter && self.focus == 4 {
            (self.applied(), CommandView::Nothing)
        } else if code == KeyCode::Enter {
            self.started(action_at(self.selected_action as int), home_is_dir)
        } else if code == KeyCode::Left {
            (self.edited(TextEdit::MoveLeft), CommandView::Nothing)
        } else if code == KeyCode::Right {
            (self.edited(TextEdit::MoveRight), CommandView::Nothing)
        } else if code == KeyCode::Backspace {
            (self.edited(TextEdit::Backspace), CommandView::Nothing)
        } else if code == KeyCode::Delete {
            (self.edited(TextEdit::Delete), CommandView::Nothing)
        } else if code is Char && !global {
            (self.edited(TextEdit::Insert(code->Char_0)), CommandView::Nothing)
        } else {
            (self, CommandView::Nothing)
        }
    }
}


/// The first keyboard row at or after `i` is a keyboard row of the list.
pub proof fn lemma_first_keyboard_from(rows: Seq<RowView>, i: int)
    ensures
        first_keyboard_from(rows, i) matches Some(k) ==> i <= k < rows.len() && rows[k as int] is Keyboard,
    decreases rows.len() - i,
{
    if 0 <= i < rows.len() && !(rows[i] is Keyboard) {
        lemma_first_keyboard_from(rows, i + 1);
    }
}

fn message_line(prefix: &str, message: &String) -> (r: String)
    ensures
        r@ == prefix@ + message@,
{
    let mut line = prefix.to_owned();
    line.append(message.as_str());
    line
}

impl App {
    #[verifier::type_invariant]
    spec fn state_is_valid(self) -> bool {
        self@.wf()
    }

    /// Appends a line to the log.
    fn push_log(&mut self, line: String)
        ensures
            final(self)@ == (AppView { log: old(self)@.log.push(line@), ..old(self)@ }),
    {
        proof {
            use_type_invariant(&*self);
        }
        let mut log: Vec<String> = Vec::new();
        std::mem::swap(&mut log, &mut self.log);
        let ghost before = crate::qmk::views_of(log@);
        log.push(line);
        assert(crate::qmk::views_of(log@) =~= before.push(line@));
        self.log = log;
    }

    /// The application state for command line settings, the user's home
    /// directory and the outcome of the first keyboard discovery.
    pub fn from_cli(cli: Cli, home_dir: Option<String>, discovery: KeyboardDiscovery) -> (r: App)
        ensures
            r@ == initial_state(cli@, opt_text(home_dir)).refreshed(discovery@),
            r@.wf(),
    {
        let qmk_home = match cli.qmk_home {
            Some(h) => h,
            None => String::new(),
        };
        let keyboard = match cli.keyboard {
            Some(k) => k,
            None => String::new(),
        };
        let keymap = match cli.keymap {
            Some(k) => k,
            None => "default".to_owned(),
        };
        let mut inputs: Vec<TextInput> = Vec::new();
        inputs.push(
            TextInput::new("QMK home", "Optional, e.g. ~/qmk_firmware", qmk_home.as_str()),
        );
        inputs.push(TextInput::new("Keyboard", "manufacturer/keyboard/revision", keyboard.as_str()));
        inputs.push(TextInput::new("Keymap", "default", keymap.as_str()));
        let mut log: Vec<String> = Vec::new();
        log.push("Fill keyboard/keymap, then press Enter, c, or f.".to_owned());
        let mut app = App {
            inputs,
            focus_index: KEYBOARD_INPUT,
            selected_action: 0,
            keyboard_rows: Vec::new(),
            selected_keyboard_row: None,
            keyboard_status: "Set QMK home and press F5".to_owned(),
            is_running: false,
            should_quit: false,
            status: "Ready".to_owned(),
            log,
            home_dir,
        };
        assert(app@ =~= initial_state(cli@, opt_text(home_dir)));
        app.refresh_keyboards(discovery);
        proof {
            use_type_invariant(&app);
        }
        app
    }

    /// Takes in the outcome of a keyboard discovery.
    pub fn refresh_keyboards(&mut self, discovery: KeyboardDiscovery)
        ensures
            final(self)@ == old(self)@.refreshed(discovery@),
    {
        proof {
            use_type_invariant(&*self);
        }
        match discovery {
            KeyboardDiscovery::NoHome => {
                self.selected_keyboard_row = None;
                self.keyboard_rows = Vec::new();
                self.keyboard_status = "Set QMK home or create ~/qmk_firmware".to_owned();
                assert(self@ =~= old(self)@.refreshed(discovery@));
            },
            KeyboardDiscovery::Found(keyboards) => {
                let userspace_count = count_by_source(&keyboards, KeyboardSource::Userspace);
                let repo_count = count_by_source(&keyboards, KeyboardSource::QmkRepo);
                let rows = keyboard_rows_from(keyboards);
                let first = first_keyboard_row(&rows);
                proof {
                    lemma_first_keyboard_from(row_views(rows@), 0);
                }
                self.selected_keyboard_row = None;
                self.keyboard_rows = rows;
                self.selected_keyboard_row = first;
                let mut status = count_to_decimal(userspace_count);
                status.append(" userspace, ");
                status.append(count_to_decimal(repo_count).as_str());
                status.append(" QMK repo");
                self.keyboard_status = status;
                assert(self@ =~= old(self)@.refreshed(discovery@));
            },
            KeyboardDiscovery::Failed(error) => {
                self.selected_keyboard_row = None;
                self.keyboard_rows = Vec::new();
                let message = error.message();
                let line = message_line("Keyboard discovery error: ", &message);
                self.keyboard_status = message;
                self.push_log(line);
                assert(self@ =~= old(self)@.refreshed(discovery@));
            },
        }
    }

    /// Where to look for keyboards: the QMK home that the first input names,
    /// or else the default one when it exists.
    pub fn keyboard_discovery_home(&self) -> (r: Option<String>)
        ensures
            parse_qmk_home_seq(self@.inputs[0].value, self@.home) is Some ==> opt_text(r)
                == parse_qmk_home_seq(self@.inputs[0].value, self@.home),
            parse_qmk_home_seq(self@.inputs[0].value, self@.home) is None && self@.home is None
                ==> r is None,
            parse_qmk_home_seq(self@.inputs[0].value, self@.home) is None && self@.home is Some
                ==> exists|b: bool|
                #![trigger asked_is_dir(crate::qmk::default_home_candidate(self@.home->0), b)]
                asked_is_dir(crate::qmk::default_home_candidate(self@.home->0), b) && opt_text(r)
                    == crate::qmk::default_home_seq(self@.home, b),
    {
        proof {
            use_type_invariant(self);
        }
        let r = keyboard_discovery_home(self.inputs[QMK_HOME_INPUT].value(), &self.home_dir);
        proof {
            if parse_qmk_home_seq(self@.inputs[0].value, self@.home) is None && self@.home is Some {
                let h = self.home_dir->0@;
                assert(self@.home == Some(h));
                let b = choose|b: bool|
                    asked_is_dir(crate::qmk::default_home_candidate(h), b) && opt_text(r)
                        == crate::qmk::default_home_seq(opt_text(self.home_dir), b);
                assert(asked_is_dir(crate::qmk::default_home_candidate(self@.home->0), b));
            }
        }
        r
    }

    pub fn should_quit(&self) -> (r: bool)
        ensures
            r == self@.quit,
    {
        self.should_quit
    }

    pub fn quit(&mut self)
        ensures
            final(self)@ == (AppView { quit: true, ..old(self)@ }),
    {
        proof {
            use_type_invariant(&*self);
        }
        self.should_quit = true;
    }

    pub fn inputs(&self) -> (r: &[TextInput])
        ensures
            input_views(r@) == self@.inputs,
    {
        self.inputs.as_slice()
    }

    pub fn focused_input_index(&self) -> (r: Option<usize>)
        ensures
            opt_index(r) == if self@.focus < 3 {
                Some(self@.focus)
            } else {
                None
            },
    {
        if self.focus_index < ACTION_FOCUS {
            Some(self.focus_index)
        } else {
            None
        }
    }

    pub fn is_action_focused(&self) -> (r: bool)
        ensures
            r == (self@.focus == 3),
    {
        self.focus_index == ACTION_FOCUS
    }

    pub fn is_keyboard_list_focused(&self) -> (r: bool)
        ensures
            r == (self@.focus == 4),
    {
        self.focus_index == KEYBOARD_LIST_FOCUS
    }

    pub fn selected_action_index(&self) -> (r: usize)
        ensures
            r == self@.selected_action,
    {
        self.selected_action
    }

    pub fn selected_action(&self) -> (r: Action)
        ensures
            r == action_at(self@.selected_action as int),
    {
        proof {
            use_type_invariant(self);
        }
        Action::at(self.selected_action)
    }

    pub fn is_running(&self) -> (r: bool)
        ensures
            r == self@.running,
    {
        self.is_running
    }

    pub fn status(&self) -> (r: &str)
        ensures
            r@ == self@.status,
    {
        self.status.as_str()
    }

    /// The log, one entry per line.
    pub fn log_text(&self) -> (r: String)
        ensures
            r@ == join_seq(self@.log, "\n"@),
    {
        join(&self.log, "\n")
    }

    pub fn keyboard_rows(&self) -> (r: &[KeyboardListRow])
        ensures
            row_views(r@) == self@.rows,
    {
        self.keyboard_rows.as_slice()
    }

    pub fn selected_keyboard_row_index(&self) -> (r: Option<usize>)
        ensures
            opt_index(r) == self@.selected_row,
    {
        self.selected_keyboard_row
    }

    pub fn keyboard_status(&self) -> (r: &str)
        ensures
            r@ == self@.keyboard_status,
    {
        self.keyboard_status.as_str()
    }

    /// The number of keyboards in the list.
    pub fn keyboard_count(&self) -> (r: usize)
        ensures
            r == keyboard_row_count(self@.rows),
    {
        count_keyboard_rows(&self.keyboard_rows)
    }

    fn focus_next(&mut self)
        requires
            old(self)@.wf(),
        ensures
            final(self)@ == old(self)@.focused_next(),
            final(self)@.wf(),
    {
        self.focus_index = (self.focus_index + 1) % FOCUS_COUNT;
    }

    fn focus_previous(&mut self)
        requires
            old(self)@.wf(),
        ensures
            final(self)@ == old(self)@.focused_previous(),
            final(self)@.wf(),
    {
        self.focus_index = (self.focus_index + FOCUS_COUNT - 1) % FOCUS_COUNT;
    }

    fn select_next_action(&mut self)
        requires
            old(self)@.wf(),
        ensures
            final(self)@ == old(self)@.action_next(),
            final(self)@.wf(),
    {
        self.selected_action = (self.selected_action + 1) % ACTION_COUNT;
    }

    fn select_previous_action(&mut self)
        requires
            old(self)@.wf(),
        ensures
            final(self)@ == old(self)@.action_previous(),
            final(self)@.wf(),
    {
        self.selected_action = (self.selected_action + ACTION_COUNT - 1) % ACTION_COUNT;
    }

    fn is_editing_text(&self) -> (r: bool)
        ensures
            r == self@.editing(),
    {
        self.focused_input_index().is_some()
    }

    fn can_use_global_shortcuts(&self) -> (r: bool)
        ensures
            r == !self@.editing(),
    {
        !self.is_editing_text()
    }

    /// Applies an edit to the focused input, if an input has the focus.
    fn edit_focused_input(&mut self, edit: TextEdit)
        requires
            old(self)@.wf(),
            old(self)@.has_room(),
        ensures
            final(self)@ == old(self)@.edited(edit),
            final(self)@.wf(),
    {
        if self.focus_index < ACTION_FOCUS {
            let index = self.focus_index;
            let ghost before = input_views(self.inputs@);
            let mut input = TextInput::new("", "", "");
            std::mem::swap(&mut input, &mut self.inputs[index]);
            assert(input@ == before[index as int]);
            match edit {
                TextEdit::MoveLeft => input.move_left(),
                TextEdit::MoveRight => input.move_right(),
                TextEdit::Backspace => input.backspace(),
                TextEdit::Delete => input.delete(),
                TextEdit::Insert(c) => input.insert(c),
            }
            std::mem::swap(&mut input, &mut self.inputs[index]);
            assert(input_views(self.inputs@) =~= before.update(index as int, self.inputs@[index as int]@));
            assert(self@ =~= old(self)@.edited(edit));
        }
    }
}


/// `(a + b) % n`, for `a` below `n` and `b` at most `n`.
fn wrap_add(a: usize, b: usize, n: usize) -> (r: usize)
    requires
        a < n,
        b <= n,
    ensures
        r == (a + b) % (n as int),
        r < n,
{
    if b >= n - a {
        let r = b - (n - a);
        proof {
            lemma_fundamental_div_mod_converse_mod(a + b, n as int, 1, r as int);
        }
        r
    } else {
        proof {
            lemma_small_mod((a + b) as nat, n as nat);
        }
        a + b
    }
}

/// One more step of `offset` moves the index on by `offset`, modulo `n`.
proof fn lemma_scan_index_step(start: int, offset: int, step: int, n: int)
    requires
        n > 0,
    ensures
        (start + offset * (step + 1)) % n == ((start + offset * step) % n + offset) % n,
{
    assert(offset * (step + 1) == offset * step + offset) by (nonlinear_arith);
    let x = start + offset * step;
    lemma_add_mod_noop(x, offset, n);
    lemma_add_mod_noop(x % n, offset, n);
    lemma_mod_twice(x, n);
}

impl App {
    fn select_keyboard_with_offset(&mut self, offset: usize)
        requires
            old(self)@.wf(),
            offset <= old(self)@.rows.len() || old(self)@.rows.len() == 0,
        ensures
            final(self)@ == old(self)@.selected_with_offset(offset as int),
            final(self)@.wf(),
    {
        let len = self.keyboard_rows.len();
        if len == 0 {
            self.selected_keyboard_row = None;
            assert(self@ =~= old(self)@.selected_with_offset(offset as int));
            return;
        }
        let start = match self.selected_keyboard_row {
            Some(i) => i,
            None => match first_keyboard_row(&self.keyboard_rows) {
                Some(i) => i,
                None => 0,
            },
        };
        proof {
            lemma_first_keyboard_from(self@.rows, 0);
        }
        assert(start as int == self@.scan_start());
        let ghost rows = self@.rows;
        let mut step: usize = 1;
        let mut index = wrap_add(start, offset, len);
        assert(offset * 1 == offset);
        loop
            invariant
                1 <= step <= len,
                len == rows.len(),
                rows == self@.rows,
                self@ == old(self)@,
                old(self)@.wf(),
                offset <= len,
                start < len,
                start as int == old(self)@.scan_start(),
                index < len,
                index == (start + offset * step) % (len as int),
                scan_keyboard(rows, start as int, offset as int, 1) == scan_keyboard(
                    rows,
                    start as int,
                    offset as int,
                    step as int,
                ),
            decreases len - step,
        {
            if self.keyboard_rows[index].is_keyboard() {
                self.selected_keyboard_row = Some(index);
                assert(self@ =~= old(self)@.selected_with_offset(offset as int));
                return;
            }
            if step == len {
                assert(scan_keyboard(rows, start as int, offset as int, step + 1) is None);
                return;
            }
            proof {
                lemma_scan_index_step(start as int, offset as int, step as int, len as int);
            }
            index = wrap_add(index, offset, len);
            step = step + 1;
        }
    }

    fn select_next_keyboard(&mut self)
        requires
            old(self)@.wf(),
        ensures
            final(self)@ == old(self)@.keyboard_next(),
            final(self)@.wf(),
    {
        self.select_keyboard_with_offset(1);
    }

    fn select_previous_keyboard(&mut self)
        requires
            old(self)@.wf(),
        ensures
            final(self)@ == old(self)@.keyboard_previous(),
            final(self)@.wf(),
    {
        let len = self.keyboard_rows.len();
        let offset = if len == 0 {
            0
        } else {
            len - 1
        };
        self.select_keyboard_with_offset(offset);
    }

    fn apply_selected_keyboard(&mut self)
        requires
            old(self)@.wf(),
        ensures
            final(self)@ == old(self)@.applied(),
            final(self)@.wf(),
    {
        let index = match self.selected_keyboard_row {
            Some(i) => i,
            None => {
                return;
            },
        };
        if index >= self.keyboard_rows.len() {
            return;
        }
        let name = match &self.keyboard_rows[index] {
            KeyboardListRow::Keyboard(keyboard) => keyboard.name.clone(),
            KeyboardListRow::Header(_) => {
                return;
            },
        };
        let ghost before = input_views(self.inputs@);
        let mut input = TextInput::new("", "", "");
        std::mem::swap(&mut input, &mut self.inputs[KEYBOARD_INPUT]);
        input.set_value(name.as_str());
        std::mem::swap(&mut input, &mut self.inputs[KEYBOARD_INPUT]);
        assert(input_views(self.inputs@) =~= before.update(1, before[1].with_value(name@)));
        self.focus_index = KEYMAP_INPUT;
        self.status = message_line("Selected ", &name);
        assert(self@ =~= old(self)@.applied());
    }

    /// The command line shown in the log for an action.
    fn command_preview(&self, action: Action) -> (r: String)
        requires
            self@.wf(),
        ensures
            r@ == self@.preview(action),
    {
        let mut line = "qmk ".to_owned();
        line.append(QmkAction::from(action).command_name());
        line.append(" -kb ");
        line.append(trim(self.inputs[KEYBOARD_INPUT].value()).as_str());
        line.append(" -km ");
        line.append(trim(self.inputs[KEYMAP_INPUT].value()).as_str());
        line
    }

    /// The request that the inputs describe, unless it is invalid.
    fn current_request(&self) -> (r: Result<QmkRequest, QmkError>)
        requires
            self@.wf(),
        ensures
            self@.request_outcome(true) == self@.request_outcome(false) ==> request_outcome_view(r)
                == self@.request_outcome(true),
            self@.request_outcome(true) != self@.request_outcome(false) ==> exists|b: bool|
                #![trigger asked_is_dir(self@.request().qmk_home->0, b)]
                self@.request().qmk_home is Some && asked_is_dir(self@.request().qmk_home->0, b)
                    && request_outcome_view(r) == self@.request_outcome(b),
    {
        let qmk_home = parse_qmk_home(self.inputs[QMK_HOME_INPUT].value(), &self.home_dir);
        let request = QmkRequest::new(
            qmk_home,
            self.inputs[KEYBOARD_INPUT].value(),
            self.inputs[KEYMAP_INPUT].value(),
        );
        match request.validate() {
            Ok(()) => Ok(request),
            Err(error) => Err(error),
        }
    }
}


/// Adds the output of a command to the log: its standard output and standard
/// error, each under a title and line by line, when not empty.
fn push_command_output(log: &mut Vec<String>, output: &QmkCommandOutput)
    ensures
        crate::qmk::views_of(final(log)@) == output_log(crate::qmk::views_of(old(log)@), output@),
{
    let ghost start = crate::qmk::views_of(log@);
    if !output.stdout.as_str().is_empty() {
        log.push("stdout:".to_owned());
        let mut more = lines(output.stdout.as_str());
        log.append(&mut more);
    }
    let ghost middle = crate::qmk::views_of(log@);
    assert(middle =~= if output@.stdout.len() > 0 {
        start.push("stdout:"@) + lines_seq(output@.stdout)
    } else {
        start
    });
    if !output.stderr.as_str().is_empty() {
        log.push("stderr:".to_owned());
        let mut more = lines(output.stderr.as_str());
        log.append(&mut more);
    }
    assert(crate::qmk::views_of(log@) =~= output_log(start, output@));
}

impl App {
    /// Starts an action unless one is running or the request is invalid.
    fn start_action(&mut self, action: Action) -> (r: AppCommand)
        requires
            old(self)@.wf(),
        ensures
            old(self)@.started(action, true) == old(self)@.started(action, false) ==> (
            final(self)@,
            r@,
            ) == old(self)@.started(action, true),
            old(self)@.started(action, true) != old(self)@.started(action, false) ==> exists|b: bool|
                #![trigger asked_is_dir(old(self)@.request().qmk_home->0, b)]
                old(self)@.request().qmk_home is Some && asked_is_dir(
                    old(self)@.request().qmk_home->0,
                    b,
                ) && (final(self)@, r@) == old(self)@.started(action, b),
            final(self)@.wf(),
    {
        if self.is_running {
            self.status = "A QMK command is already running".to_owned();
            assert(self@ =~= old(self)@.started(action, true).0);
            return AppCommand::Nothing;
        }
        let outcome = self.current_request();
        let ghost h = request_outcome_view(outcome) == old(self)@.request_outcome(true);
        assert(request_outcome_view(outcome) == old(self)@.request_outcome(h));
        match outcome {
            Ok(request) => {
                let preview = self.command_preview(action);
                self.is_running = true;
                self.status = message_line("Running ", &action.label().to_owned());
                let line = message_line("$ ", &preview);
                self.push_log(line);
                assert(self@ =~= old(self)@.started(action, h).0);
                AppCommand::Run(action, request)
            },
            Err(error) => {
                let message = error.message();
                let line = message_line("Input error: ", &message);
                self.status = message;
                self.push_log(line);
                assert(self@ =~= old(self)@.started(action, h).0);
                AppCommand::Nothing
            },
        }
    }

    fn record_output(&mut self, action: Action, output: Result<QmkCommandOutput, QmkError>)
        requires
            old(self)@.wf(),
        ensures
            final(self)@ == old(self)@.recorded(action, output_view(output)),
            final(self)@.wf(),
    {
        match output {
            Ok(output) => {
                if output.succeeded() {
                    let mut status = action.label().to_owned();
                    status.append(" finished successfully");
                    self.status = status;
                } else {
                    let mut status = action.label().to_owned();
                    status.append(" failed with status ");
                    match output.status_code {
                        Some(code) => status.append(int_to_decimal(code).as_str()),
                        None => status.append("unknown"),
                    }
                    self.status = status;
                }
                let mut log: Vec<String> = Vec::new();
                std::mem::swap(&mut log, &mut self.log);
                push_command_output(&mut log, &output);
                self.log = log;
                assert(self@ =~= old(self)@.recorded(action, output_view(Ok(output))));
            },
            Err(error) => {
                let message = error.message();
                let line = message_line("Error: ", &message);
                self.status = message;
                self.push_log(line);
                assert(self@ =~= old(self)@.recorded(action, output_view(Err(error))));
            },
        }
    }

    /// Takes in a message of the worker: the running command is over.
    pub fn handle_worker_message(&mut self, message: WorkerMessage)
        ensures
            final(self)@ == (match message {
                WorkerMessage::Finished { action, output } => old(self)@.finished(
                    action,
                    output_view(output),
                ),
            }),
    {
        proof {
            use_type_invariant(&*self);
        }
        match message {
            WorkerMessage::Finished { action, output } => {
                self.is_running = false;
                self.record_output(action, output);
            },
        }
    }
}


impl App {
    /// Takes in a key press and tells the caller what to do next.
    pub fn handle_key_event(&mut self, key: KeyEvent) -> (r: AppCommand)
        requires
            old(self)@.has_room(),
        ensures
            old(self)@.key_step(key, true) == old(self)@.key_step(key, false) ==> (
            final(self)@,
            r@,
            ) == old(self)@.key_step(key, true),
            old(self)@.key_step(key, true) != old(self)@.key_step(key, false) ==> exists|b: bool|
                #![trigger asked_is_dir(old(self)@.request().qmk_home->0, b)]
                old(self)@.request().qmk_home is Some && asked_is_dir(
                    old(self)@.request().qmk_home->0,
                    b,
                ) && (final(self)@, r@) == old(self)@.key_step(key, b),
    {
        proof {
            use_type_invariant(&*self);
        }
        let code = key.code;
        let global = self.can_use_global_shortcuts();
        if key.control && code == KeyCode::Char('c') {
            AppCommand::Quit
        } else if code == KeyCode::Char('q') && global {
            AppCommand::Quit
        } else if code == KeyCode::Esc {
            AppCommand::Quit
        } else if code == KeyCode::Tab {
            self.focus_next();
            AppCommand::Nothing
        } else if code == KeyCode::BackTab {
            self.focus_previous();
            AppCommand::Nothing
        } else if code == KeyCode::Up && self.is_action_focused() {
            self.select_previous_action();
            AppCommand::Nothing
        } else if code == KeyCode::Down && self.is_action_focused() {
            self.select_next_action();
            AppCommand::Nothing
        } else if code == KeyCode::Up && self.is_keyboard_list_focused() {
            self.select_previous_keyboard();
            AppCommand::Nothing
        } else if code == KeyCode::Down && self.is_keyboard_list_focused() {
            self.select_next_keyboard();
            AppCommand::Nothing
        } else if code == KeyCode::F(5) {
            AppCommand::RefreshKeyboards
        } else if code == KeyCode::Char('r') && global {
            AppCommand::RefreshKeyboards
        } else if code == KeyCode::Char('c') && global {
            self.start_action(Action::Compile)
        } else if code == KeyCode::Char('f') && global {
            self.start_action(Action::Flash)
        } else if code == KeyCode::Enter && self.is_keyboard_list_focused() {
            self.apply_selected_keyboard();
            AppCommand::Nothing
        } else if code == KeyCode::Enter {
            let action = self.selected_action();
            self.start_action(action)
        } else if code == KeyCode::Left {
            self.edit_focused_input(TextEdit::MoveLeft);
            AppCommand::Nothing
        } else if code == KeyCode::Right {
            self.edit_focused_input(TextEdit::MoveRight);
            AppCommand::Nothing
        } else if code == KeyCode::Backspace {
            self.edit_focused_input(TextEdit::Backspace);
            AppCommand::Nothing
        } else if code == KeyCode::Delete {
            self.edit_focused_input(TextEdit::Delete);
            AppCommand::Nothing
        } else {
            match code {
                KeyCode::Char(character) => {
                    if !global {
                        self.edit_focused_input(TextEdit::Insert(character));
                    }
                },
                _ => {},
            }
            AppCommand::Nothing
        }
    }
}


/// A search that meets a keyboard row at step `j`, after none at the steps
/// from `step` on, ends there.
proof fn lemma_scan_finds(rows: Seq<RowView>, start: int, offset: int, step: int, j: int)
    requires
        1 <= step <= j <= rows.len(),
        rows[(start + offset * j) % (rows.len() as int)] is Keyboard,
        forall|t: int|
            step <= t < j ==> !(rows[#[trigger] ((start + offset * t) % (rows.len() as int))] is Keyboard),
    ensures
        scan_keyboard(rows, start, offset, step) == Some(((start + offset * j) % (rows.len() as int)) as nat),
    decreases j - step,
{
    if step < j {
        assert(!(rows[(start + offset * step) % (rows.len() as int)] is Keyboard));
        lemma_scan_finds(rows, start, offset, step + 1, j);
    }
}

/// A search that ends at a row met it at some step, after no keyboard row.
proof fn lemma_scan_found(rows: Seq<RowView>, start: int, offset: int, step: int) -> (j: int)
    requires
        scan_keyboard(rows, start, offset, step) is Some,
    ensures
        1 <= step <= j <= rows.len(),
        scan_keyboard(rows, start, offset, step) == Some(((start + offset * j) % (rows.len() as int)) as nat),
        rows[(start + offset * j) % (rows.len() as int)] is Keyboard,
        forall|t: int|
            step <= t < j ==> !(rows[#[trigger] ((start + offset * t) % (rows.len() as int))] is Keyboard),
    decreases rows.len() + 1 - step,
{
    let index = (start + offset * step) % (rows.len() as int);
    if rows[index] is Keyboard {
        step
    } else {
        let j = lemma_scan_found(rows, start, offset, step + 1);
        assert forall|t: int|
            step <= t < j implies !(rows[#[trigger] ((start + offset * t) % (rows.len() as int))] is Keyboard) by {
            if t > step {
            }
        }
        j
    }
}

/// A search finds a keyboard row when one is met at some step from `step` on.
proof fn lemma_scan_some(rows: Seq<RowView>, start: int, offset: int, step: int, j: int)
    requires
        1 <= step <= j <= rows.len(),
        rows[(start + offset * j) % (rows.len() as int)] is Keyboard,
    ensures
        scan_keyboard(rows, start, offset, step) is Some,
    decreases j - step,
{
    if !(rows[(start + offset * step) % (rows.len() as int)] is Keyboard) {
        lemma_scan_some(rows, start, offset, step + 1, j);
    }
}

/// Stepping back `m` times by `n - 1` from `(k + j) % n` lands on
/// `(k + j - m) % n`.
proof fn lemma_backward_index(k: int, j: int, m: int, n: int)
    requires
        n > 0,
    ensures
        ((k + j) % n + (n - 1) * m) % n == (k + (j - m)) % n,
{
    let x = k + j;
    let y = (n - 1) * m;
    lemma_add_mod_noop(x, y, n);
    lemma_add_mod_noop(x % n, y, n);
    lemma_mod_twice(x, n);
    assert(x + y == n * m + (x - m)) by (nonlinear_arith)
        requires
            x == k + j,
            y == (n - 1) * m,
    ;
    lemma_mod_multiples_vanish(m, x - m, n);
}

/// Moving the keyboard selection down and then up again comes back to the
/// keyboard that was selected.
pub proof fn law_keyboard_next_then_previous(s: AppView)
    requires
        s.wf(),
        s.selected_row is Some,
    ensures
        s.keyboard_next().keyboard_previous().selected_row == s.selected_row,
{
    let rows = s.rows;
    let n = rows.len() as int;
    let k = s.selected_row->0 as int;
    assert(s.scan_start() == k);
    lemma_small_mod(k as nat, n as nat);
    assert((k + 1 * n) % n == k) by {
        lemma_mod_multiples_vanish(1, k, n);
        assert(k + 1 * n == n * 1 + k) by (nonlinear_arith);
    }
    lemma_scan_some(rows, k, 1, 1, n);
    let j1 = lemma_scan_found(rows, k, 1, 1);
    let next = s.keyboard_next();
    let k2 = (k + 1 * j1) % n;
    assert(next.selected_row == Some(k2 as nat));
    assert(next.rows == rows);
    assert(next.scan_start() == k2);
    assert((k2 + (n - 1) * j1) % n == k) by {
        lemma_backward_index(k, j1, j1, n);
        assert((k + 1 * (j1 - j1)) % n == k);
    }
    assert forall|t: int|
        1 <= t < j1 implies !(rows[#[trigger] ((k2 + (n - 1) * t) % n)] is Keyboard) by {
        lemma_backward_index(k, j1, t, n);
        assert((k2 + (n - 1) * t) % n == (k + 1 * (j1 - t)) % n);
        assert(1 <= j1 - t < j1);
    }
    lemma_scan_finds(rows, k2, n - 1, 1, j1);
}

/// Backspace undoes typing a character.
pub proof fn law_backspace_undoes_insert(t: TextInputView, c: char)
    requires
        t.wf(),
    ensures
        t.inserted(c).backspaced() == t,
{
    let v = t.inserted(c);
    assert(v.value.take(t.cursor as int) =~= t.value.take(t.cursor as int));
    assert(v.value.skip(t.cursor + 1 as int) =~= t.value.skip(t.cursor as int));
    assert(t.value.take(t.cursor as int) + t.value.skip(t.cursor as int) =~= t.value);
    assert(v.backspaced() =~= t);
}

/// Moving the cursor left and back right leaves the input as it was, unless
/// the cursor was at the start.
pub proof fn law_left_then_right(t: TextInputView)
    requires
        t.wf(),
        t.cursor > 0,
    ensures
        t.moved_left().moved_right() == t,
{
    assert(t.moved_left().moved_right() =~= t);
}

/// Deleting after moving left is the same as a backspace, unless the cursor
/// was at the start.
pub proof fn law_delete_after_left_is_backspace(t: TextInputView)
    requires
        t.wf(),
        t.cursor > 0,
    ensures
        t.moved_left().deleted() == t.backspaced(),
{
    assert(t.moved_left().deleted() =~= t.backspaced());
}

/// Tab and then Shift+Tab give back the focus, and five Tabs go round.
pub proof fn law_focus_round_trip(s: AppView)
    requires
        s.wf(),
    ensures
        s.focused_next().focused_previous() == s,
        s.focused_previous().focused_next() == s,
        s.focused_next().focused_next().focused_next().focused_next().focused_next() == s,
{
    assert(s.focused_next().focused_previous() =~= s);
    assert(s.focused_previous().focused_next() =~= s);
    assert(s.focused_next().focused_next().focused_next().focused_next().focused_next() =~= s);
}

/// Moving the action selection down and up again gives it back.
pub proof fn law_action_round_trip(s: AppView)
    requires
        s.wf(),
    ensures
        s.action_next().action_previous() == s,
        s.action_previous().action_next() == s,
{
    assert(s.action_next().action_previous() =~= s);
    assert(s.action_previous().action_next() =~= s);
}

/// Escape and Control+C quit from any state and change nothing.
pub proof fn law_quit_keys(s: AppView, key: KeyEvent, home_is_dir: bool)
    requires
        key.code == KeyCode::Esc || (key.control && key.code == KeyCode::Char('c')),
    ensures
        s.key_step(key, home_is_dir) == (s, CommandView::Quit),
{
}

/// Tab and Shift+Tab move the focus by one slot forwards or backwards and
/// change nothing else.
pub proof fn law_tab_keys(s: AppView, control: bool, home_is_dir: bool)
    ensures
        s.key_step(KeyEvent { code: KeyCode::Tab, control }, home_is_dir) == (
            s.focused_next(),
            CommandView::Nothing,
        ),
        s.key_step(KeyEvent { code: KeyCode::BackTab, control }, home_is_dir) == (
            s.focused_previous(),
            CommandView::Nothing,
        ),
        s.focused_next() == (AppView { focus: ((s.focus + 1) % 5) as nat, ..s }),
        s.focused_previous() == (AppView { focus: ((s.focus + 4) % 5) as nat, ..s }),
{
}

/// Outside the text inputs, `c` and `f` start the compile and flash actions,
/// whatever action is selected; inside an input they are typed.
pub proof fn law_action_shortcuts(s: AppView, home_is_dir: bool)
    ensures
        !s.editing() ==> s.key_step(KeyEvent { code: KeyCode::Char('c'), control: false }, home_is_dir)
            == s.started(Action::Compile, home_is_dir),
        !s.editing() ==> s.key_step(KeyEvent { code: KeyCode::Char('f'), control: false }, home_is_dir)
            == s.started(Action::Flash, home_is_dir),
        s.editing() ==> s.key_step(KeyEvent { code: KeyCode::Char('c'), control: false }, home_is_dir)
            == (s.edited(TextEdit::Insert('c')), CommandView::Nothing),
        s.editing() ==> s.key_step(KeyEvent { code: KeyCode::Char('f'), control: false }, home_is_dir)
            == (s.edited(TextEdit::Insert('f')), CommandView::Nothing),
{
}

/// Starting an action while one runs only says so in the status line: no
/// command, and the log, the inputs and the focus stay as they were.
pub proof fn law_start_while_running(s: AppView, action: Action, home_is_dir: bool)
    requires
        s.running,
    ensures
        s.started(action, home_is_dir) == (
            AppView { status: "A QMK command is already running"@, ..s },
            CommandView::Nothing,
        ),
{
}

/// While a command runs, no key starts another one.
pub proof fn law_no_second_run(s: AppView, key: KeyEvent, home_is_dir: bool)
    requires
        s.running,
    ensures
        !(s.key_step(key, home_is_dir).1 is Run),
        s.key_step(key, home_is_dir).0.running,
{
}

/// A command is only handed out for a request that passed validation, with
/// the action then running and the command line in the log.
pub proof fn law_run_only_valid(s: AppView, key: KeyEvent, home_is_dir: bool)
    requires
        s.key_step(key, home_is_dir).1 is Run,
    ensures
        !s.running,
        s.key_step(key, home_is_dir).1->Run_1 == s.request(),
        request_check(s.request(), home_is_dir) is Ok,
        trim_seq(s.request().keyboard).len() > 0,
        trim_seq(s.request().keymap).len() > 0,
        s.key_step(key, home_is_dir).0.running,
        s.key_step(key, home_is_dir).0.log == s.log.push(
            "$ "@ + s.preview(s.key_step(key, home_is_dir).1->Run_0),
        ),
{
}

/// While a text input has the focus, a character key other than Control+C
/// types that character: it neither quits nor starts anything.
pub proof fn law_typing_in_input(s: AppView, c: char, home_is_dir: bool)
    requires
        s.wf(),
        s.editing(),
    ensures
        s.key_step(KeyEvent { code: KeyCode::Char(c), control: false }, home_is_dir) == (
            s.edited(TextEdit::Insert(c)),
            CommandView::Nothing,
        ),
{
}

/// When a command finishes, nothing runs any more.
pub proof fn law_finish_clears_running(
    s: AppView,
    action: Action,
    output: Result<QmkCommandOutputView, QmkErrorView>,
)
    ensures
        !s.finished(action, output).running,
{
}


proof fn lemma_row_count_concat(a: Seq<RowView>, b: Seq<RowView>)
    ensures
        keyboard_row_count(a + b) == keyboard_row_count(a) + keyboard_row_count(b),
    decreases b.len(),
{
    if b.len() > 0 {
        lemma_row_count_concat(a, b.drop_last());
        assert((a + b).drop_last() =~= a + b.drop_last());
    } else {
        assert(a + b =~= a);
    }
}

proof fn lemma_keyboard_rows_count(g: Seq<KeyboardView>)
    ensures
        keyboard_row_count(g.map_values(|k: KeyboardView| RowView::Keyboard(k))) == g.len(),
    decreases g.len(),
{
    let f = |k: KeyboardView| RowView::Keyboard(k);
    if g.len() > 0 {
        lemma_keyboard_rows_count(g.drop_last());
        assert(g.map_values(f).drop_last() =~= g.drop_last().map_values(f));
    }
}

proof fn lemma_sources_split(k: Seq<KeyboardView>)
    ensures
        of_source(k, KeyboardSource::Userspace).len() + of_source(k, KeyboardSource::QmkRepo).len()
            == k.len(),
    decreases k.len(),
{
    if k.len() > 0 {
        lemma_sources_split(k.drop_last());
    }
}

/// After a discovery, the keyboard list holds one keyboard row for each
/// keyboard found.
pub proof fn law_keyboard_count_after_discovery(s: AppView, k: Seq<KeyboardView>)
    ensures
        keyboard_row_count(s.refreshed(DiscoveryView::Found(k)).rows) == k.len(),
{
    let u = of_source(k, KeyboardSource::Userspace);
    let r = of_source(k, KeyboardSource::QmkRepo);
    let f = |k: KeyboardView| RowView::Keyboard(k);
    lemma_row_count_concat(group_rows("Userspace"@, u), group_rows("QMK repo"@, r));
    if u.len() > 0 {
        lemma_row_count_concat(seq![RowView::Header("Userspace"@)], u.map_values(f));
        lemma_keyboard_rows_count(u);
        assert(keyboard_row_count(seq![RowView::Header("Userspace"@)]) == 0) by {
            let h = seq![RowView::Header("Userspace"@)];
            assert(h.drop_last() =~= Seq::<RowView>::empty());
            assert(keyboard_row_count(h.drop_last()) == 0);
            assert(!(h.last() is Keyboard));
        }
    }
    if r.len() > 0 {
        lemma_row_count_concat(seq![RowView::Header("QMK repo"@)], r.map_values(f));
        lemma_keyboard_rows_count(r);
        assert(keyboard_row_count(seq![RowView::Header("QMK repo"@)]) == 0) by {
            let h = seq![RowView::Header("QMK repo"@)];
            assert(h.drop_last() =~= Seq::<RowView>::empty());
            assert(keyboard_row_count(h.drop_last()) == 0);
            assert(!(h.last() is Keyboard));
        }
    }
    lemma_sources_split(k);
}


/// Enter outside the keyboard list starts the selected action: a command it
/// hands out is for the action at the selected position of the list, and a
/// valid request on an idle state is handed out, with the status and the
/// command line naming that action.
pub proof fn law_enter_runs_selected_action(s: AppView, control: bool, home_is_dir: bool)
    requires
        s.focus != 4,
    ensures
        ({
            let (after, command) = s.key_step(KeyEvent { code: KeyCode::Enter, control }, home_is_dir);
            let chosen = if s.selected_action == 0 {
                Action::Compile
            } else {
                Action::Flash
            };
            &&& command is Run ==> command->Run_0 == chosen
            &&& (!s.running && request_check(s.request(), home_is_dir) is Ok) ==> command == CommandView::Run(
                chosen,
                s.request(),
            ) && after.running && after.status == "Running "@ + action_label_seq(chosen)
                && after.log == s.log.push(
                "$ qmk "@ + command_name_seq(qmk_action_of(chosen)) + " -kb "@ + trim_seq(
                    s.inputs[1].value,
                ) + " -km "@ + trim_seq(s.inputs[2].value),
            )
        }),
{
    let chosen = if s.selected_action == 0 {
        Action::Compile
    } else {
        Action::Flash
    };
    assert(action_at(s.selected_action as int) == chosen);
    let p = s.preview(chosen);
    assert(p == "qmk "@ + command_name_seq(qmk_action_of(chosen)) + " -kb "@ + trim_seq(
        s.inputs[1].value,
    ) + " -km "@ + trim_seq(s.inputs[2].value));
    assert("$ "@ + p =~= "$ qmk "@ + command_name_seq(qmk_action_of(chosen)) + " -kb "@ + trim_seq(
        s.inputs[1].value,
    ) + " -km "@ + trim_seq(s.inputs[2].value)) by {
        reveal_strlit("$ ");
        reveal_strlit("qmk ");
        reveal_strlit("$ qmk ");
    }
}

/// With the keyboard list focused, Down selects the nearest keyboard row
/// below the selected one, passing over header rows.
pub proof fn law_down_selects_next_keyboard_below(s: AppView, control: bool, home_is_dir: bool, j: int)
    requires
        s.wf(),
        s.focus == 4,
        s.selected_row matches Some(k) && k < j < s.rows.len() && s.rows[j] is Keyboard && forall|
            t: int,
        |
            k < t < j ==> !(#[trigger] s.rows[t] is Keyboard),
    ensures
        s.key_step(KeyEvent { code: KeyCode::Down, control }, home_is_dir).0.selected_row == Some(
            j as nat,
        ),
        s.key_step(KeyEvent { code: KeyCode::Down, control }, home_is_dir).1 == CommandView::Nothing,
{
    let n = s.rows.len() as int;
    let k = s.selected_row->0 as int;
    assert(s.scan_start() == k);
    let steps = j - k;
    assert forall|t: int| 1 <= t < steps implies !(s.rows[#[trigger] ((k + 1 * t) % n)] is Keyboard) by {
        lemma_small_mod((k + t) as nat, n as nat);
    }
    lemma_small_mod((k + steps) as nat, n as nat);
    assert((k + 1 * steps) % n == j);
    lemma_scan_finds(s.rows, k, 1, 1, steps);
}

/// With the keyboard list focused, Up selects the nearest keyboard row above
/// the selected one, passing over header rows.
pub proof fn law_up_selects_previous_keyboard_above(s: AppView, control: bool, home_is_dir: bool, j: int)
    requires
        s.wf(),
        s.focus == 4,
        s.selected_row matches Some(k) && 0 <= j < k && s.rows[j] is Keyboard && forall|t: int|
            j < t < k ==> !(#[trigger] s.rows[t] is Keyboard),
    ensures
        s.key_step(KeyEvent { code: KeyCode::Up, control }, home_is_dir).0.selected_row == Some(
            j as nat,
        ),
        s.key_step(KeyEvent { code: KeyCode::Up, control }, home_is_dir).1 == CommandView::Nothing,
{
    let n = s.rows.len() as int;
    let k = s.selected_row->0 as int;
    assert(s.scan_start() == k);
    let steps = k - j;
    lemma_small_mod(k as nat, n as nat);
    assert forall|t: int| 1 <= t < steps implies !(s.rows[#[trigger] ((k + (n - 1) * t) % n)] is Keyboard) by {
        lemma_backward_index(k, 0, t, n);
        lemma_small_mod((k - t) as nat, n as nat);
    }
    lemma_backward_index(k, 0, steps, n);
    lemma_small_mod(j as nat, n as nat);
    assert((k + (n - 1) * steps) % n == j);
    lemma_scan_finds(s.rows, k, n - 1, 1, steps);
}

/// A finished command is reported as successful exactly when it exited with
/// status 0; any other exit status is shown in decimal, and a missing one as
/// unknown. Its output goes to the log either way.
pub proof fn law_success_means_exit_status_zero(
    s: AppView,
    action: Action,
    o: QmkCommandOutputView,
)
    ensures
        o.status_code == Some(0i32) ==> s.recorded(action, Ok(o)).status == action_label_seq(action)
            + " finished successfully"@,
        forall|c: i32|
            o.status_code == Some(c) && c != 0 ==> #[trigger] s.recorded(action, Ok(o)).status
                == action_label_seq(action) + " failed with status "@ + int_decimal(c as int),
        o.status_code is None ==> s.recorded(action, Ok(o)).status == action_label_seq(action)
            + " failed with status unknown"@,
        (s.recorded(action, Ok(o)).status == action_label_seq(action) + " finished successfully"@)
            <==> o.status_code == Some(0i32),
        s.recorded(action, Ok(o)).log == output_log(s.log, o),
        s.recorded(action, Ok(o)).running == s.running,
{
    let label = action_label_seq(action);
    reveal_strlit(" finished successfully");
    reveal_strlit(" failed with status ");
    reveal_strlit(" failed with status unknown");
    reveal_strlit("unknown");
    assert(label + " failed with status "@ + "unknown"@ =~= label + " failed with status unknown"@);
    if o.status_code != Some(0i32) {
        let st = s.recorded(action, Ok(o)).status;
        let good = label + " finished successfully"@;
        assert(st[label.len() + 2 as int] == 'a');
        assert(good[label.len() + 2 as int] == 'i');
    }
}

/// The keyboards of one source, taken from a discovery: exactly the
/// discovered keyboards of that source, in the order they were discovered.
pub proof fn lemma_of_source_positions(k: Seq<KeyboardView>, source: KeyboardSource) -> (idx: Seq<int>)
    ensures
        idx.len() == of_source(k, source).len(),
        forall|i: int| 0 <= i < idx.len() ==> 0 <= #[trigger] idx[i] < k.len(),
        forall|i: int| 0 <= i < idx.len() ==> of_source(k, source)[i] == k[#[trigger] idx[i]],
        forall|i: int| 0 <= i < idx.len() ==> k[#[trigger] idx[i]].source == source,
        forall|i: int, m: int| 0 <= i < m < idx.len() ==> #[trigger] idx[i] < #[trigger] idx[m],
        forall|j: int| 0 <= j < k.len() && k[j].source == source ==> #[trigger] idx.contains(j),
    decreases k.len(),
{
    if k.len() == 0 {
        Seq::empty()
    } else {
        let rest = lemma_of_source_positions(k.drop_last(), source);
        let last = k.len() - 1;
        let idx = if k.last().source == source {
            rest.push(last)
        } else {
            rest
        };
        assert forall|j: int| 0 <= j < k.len() && k[j].source == source implies #[trigger] idx.contains(
            j,
        ) by {
            if j < last {
                assert(k.drop_last()[j] == k[j]);
                assert(rest.contains(j));
                let w = choose|w: int| 0 <= w < rest.len() && rest[w] == j;
                assert(idx[w] == j);
            } else {
                assert(idx[idx.len() - 1] == j);
            }
        }
        assert forall|i: int| 0 <= i < idx.len() implies of_source(k, source)[i] == k[#[trigger] idx[i]] by {
            if i < rest.len() {
                assert(k.drop_last()[rest[i]] == k[rest[i]]);
            }
        }
        idx
    }
}

/// The keyboards of one source keep their discovery order and none is lost:
/// the group is the discovery's keyboards of that source at increasing
/// positions, and every keyboard of that source is among them.
pub proof fn law_groups_keep_discovery_order(k: Seq<KeyboardView>, source: KeyboardSource)
    ensures
        exists|idx: Seq<int>|
            #![trigger idx.len()]
            idx.len() == of_source(k, source).len() && (forall|i: int|
                0 <= i < idx.len() ==> 0 <= #[trigger] idx[i] < k.len() && of_source(k, source)[i]
                    == k[idx[i]] && k[idx[i]].source == source) && (forall|i: int, m: int|
                0 <= i < m < idx.len() ==> #[trigger] idx[i] < #[trigger] idx[m]) && (forall|j: int|
                0 <= j < k.len() && k[j].source == source ==> #[trigger] idx.contains(j)),
{
    let idx = lemma_of_source_positions(k, source);
    assert(idx.len() == of_source(k, source).len());
}

/// The keyboard list is the userspace group and then the QMK repository
/// group; a group that is not empty is its title followed by its keyboards,
/// one row each, in order.
pub proof fn law_keyboard_list_layout(k: Seq<KeyboardView>)
    ensures
        ({
            let rows = rows_from_seq(k);
            let u = of_source(k, KeyboardSource::Userspace);
            let r = of_source(k, KeyboardSource::QmkRepo);
            let start = if u.len() > 0 {
                u.len() + 1
            } else {
                0
            };
            &&& rows.len() == start + if r.len() > 0 {
                r.len() + 1
            } else {
                0
            }
            &&& u.len() > 0 ==> rows[0] == RowView::Header("Userspace"@)
            &&& forall|i: int| 0 <= i < u.len() ==> rows[i + 1] == RowView::Keyboard(#[trigger] u[i])
            &&& r.len() > 0 ==> rows[start as int] == RowView::Header("QMK repo"@)
            &&& forall|i: int|
                0 <= i < r.len() ==> rows[start + 1 + i] == RowView::Keyboard(#[trigger] r[i])
        }),
{
    let rows = rows_from_seq(k);
    let u = of_source(k, KeyboardSource::Userspace);
    let r = of_source(k, KeyboardSource::QmkRepo);
    let gu = group_rows("Userspace"@, u);
    let gr = group_rows("QMK repo"@, r);
    assert(rows == gu + gr);
}

} // verus!
