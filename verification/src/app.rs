//! The application: its running state, the clipboard, and the dispatch of
//! key presses to the operations of the browser.
//!
//! The application does no input or output. A key press either is handled at
//! once or comes back as a request: the host does what is asked (reads a
//! directory, copies, sends to the trash) and hands the result to the
//! operation that completes the action.

use crate::bytes::copy_bytes;
use crate::dir::{EntryKind, RawEntry, RawModel};
use crate::entry::{
    copy_file, counted_names, names_counted, names_of, planned_copy, FileCopy, FileCopyModel,
};
use crate::error::{error_text, BrowseError};
use crate::nav::{
    found_in, lemma_operations_keep_well_formed, NavModel, NavigationState, OpenTarget,
    OpenTargetModel, Opened,
};
use crate::path::{file_name, file_name_of, join_path, joined};
use crate::selection::{DirListState, Direction};
use crate::tree_copy::{copy_directory, CopyJob, CopyJobModel};
use vstd::prelude::*;
use vstd::string::*;

verus! {

/// Why the application waits for a yes or a no.
#[derive(Clone, Copy, Debug, PartialEq, Eq, Structural)]
pub enum ConfirmReason {
    /// A paste that replaces entries of the same name was asked for.
    Overwrite,
}

/// Whether the application runs, waits for an answer, or has ended.
#[derive(Clone, Copy, Debug, PartialEq, Eq, Structural)]
pub enum AppState {
    Running,
    AwaitingConfirmation(ConfirmReason),
    Exit,
}

/// What a paste does with the marked entry.
#[derive(Clone, Copy, Debug, PartialEq, Eq, Structural)]
pub enum Intent {
    Copy,
    Move,
}

/// The marked entry and what a paste does with it.
#[derive(Clone, Debug, PartialEq, Eq)]
pub struct Clipboard {
    pub source_path: Vec<u8>,
    pub intent: Intent,
}

/// The mathematical value of a `Clipboard`.
pub struct ClipboardModel {
    pub source_path: Seq<u8>,
    pub intent: Intent,
}

impl View for Clipboard {
    type V = ClipboardModel;

    open spec fn view(&self) -> ClipboardModel {
        ClipboardModel { source_path: self.source_path@, intent: self.intent }
    }
}

/// A key as the host decoded it.
#[derive(Clone, Copy, Debug, PartialEq, Eq, Structural)]
pub enum Key {
    Char(char),
    Delete,
    Up,
    Down,
    Tab,
    BackTab,
    Enter,
    Right,
    Esc,
    Backspace,
    Left,
    Other,
}

/// What can be asked of the running application. Every action but
/// `PasteOver` has a key; that one is for the host to offer.
#[derive(Clone, Copy, Debug, PartialEq, Eq, Structural)]
pub enum Action {
    Quit,
    ToggleHidden,
    Mark,
    Paste,
    PasteMove,
    /// A paste that replaces entries of the same name, once confirmed.
    PasteOver,
    Trash,
    CursorUp,
    CursorDown,
    SwitchPanes,
    Open,
    NavigateUp,
    Ignored,
}

/// What a key answers while the application waits for a yes or a no.
#[derive(Clone, Copy, Debug, PartialEq, Eq, Structural)]
pub enum Answer {
    Yes,
    No,
    Neither,
}

/// The key bindings of the running application.
pub open spec fn action_of(key: Key) -> Action {
    match key {
        Key::Char(c) => if c == 'q' {
            Action::Quit
        } else if c == 'h' {
            Action::ToggleHidden
        } else if c == 'c' || c == 'y' {
            Action::Mark
        } else if c == 'p' {
            Action::Paste
        } else if c == 'x' {
            Action::PasteMove
        } else if c == ' ' {
            Action::Open
        } else {
            Action::Ignored
        },
        Key::Delete => Action::Trash,
        Key::Up => Action::CursorUp,
        Key::Down => Action::CursorDown,
        Key::Tab | Key::BackTab => Action::SwitchPanes,
        Key::Enter | Key::Right => Action::Open,
        Key::Esc | Key::Backspace | Key::Left => Action::NavigateUp,
        Key::Other => Action::Ignored,
    }
}

/// The keys that answer a question.
pub open spec fn answer_of(key: Key) -> Answer {
    match key {
        Key::Char(c) => if c == 'y' {
            Answer::Yes
        } else if c == 'n' {
            Answer::No
        } else {
            Answer::Neither
        },
        Key::Enter => Answer::Yes,
        Key::Esc => Answer::No,
        _ => Answer::Neither,
    }
}

/// What a key asks for while the application runs.
pub fn key_action(key: Key) -> (action: Action)
    ensures
        action == action_of(key),
{
    match key {
        Key::Char(c) => if c == 'q' {
            Action::Quit
        } else if c == 'h' {
            Action::ToggleHidden
        } else if c == 'c' || c == 'y' {
            Action::Mark
        } else if c == 'p' {
            Action::Paste
        } else if c == 'x' {
            Action::PasteMove
        } else if c == ' ' {
            Action::Open
        } else {
            Action::Ignored
        },
        Key::Delete => Action::Trash,
        Key::Up => Action::CursorUp,
        Key::Down => Action::CursorDown,
        Key::Tab | Key::BackTab => Action::SwitchPanes,
        Key::Enter | Key::Right => Action::Open,
        Key::Esc | Key::Backspace | Key::Left => Action::NavigateUp,
        Key::Other => Action::Ignored,
    }
}

/// What a key answers while the application waits for a yes or a no.
pub fn key_answer(key: Key) -> (answer: Answer)
    ensures
        answer == answer_of(key),
{
    match key {
        Key::Char(c) => if c == 'y' {
            Answer::Yes
        } else if c == 'n' {
            Answer::No
        } else {
            Answer::Neither
        },
        Key::Enter => Answer::Yes,
        Key::Esc => Answer::No,
        _ => Answer::Neither,
    }
}

/// What the host is asked to do after a key press.
#[derive(Clone, Debug, PartialEq, Eq)]
pub enum Request {
    /// Nothing: the key press has been handled.
    Nothing,
    /// Read this directory, the current one, and call `toggle_hidden`.
    ToggleHidden(Vec<u8>),
    /// Read this directory, the selected one, and call `open_selected`.
    OpenDirectory(Vec<u8>),
    /// Hand this file to the opener.
    OpenFile(Vec<u8>),
    /// Read this directory, the parent, and call `nav_up_dir`.
    NavigateUp(Vec<u8>),
    /// Find out what `source` is and which names `destination` holds, call
    /// `paste` with both and with `overwrite`, carry out its plan, and call
    /// `finish_paste`.
    Paste { source: Vec<u8>, destination: Vec<u8>, intent: Intent, overwrite: bool },
    /// Send this entry to the trash and call `finish_trash`.
    Trash(Vec<u8>),
}

/// The mathematical value of a `Request`.
pub enum RequestModel {
    Nothing,
    ToggleHidden(Seq<u8>),
    OpenDirectory(Seq<u8>),
    OpenFile(Seq<u8>),
    NavigateUp(Seq<u8>),
    Paste { source: Seq<u8>, destination: Seq<u8>, intent: Intent, overwrite: bool },
    Trash(Seq<u8>),
}

impl View for Request {
    type V = RequestModel;

    open spec fn view(&self) -> RequestModel {
        match self {
            Request::Nothing => RequestModel::Nothing,
            Request::ToggleHidden(dir) => RequestModel::ToggleHidden(dir@),
            Request::OpenDirectory(dir) => RequestModel::OpenDirectory(dir@),
            Request::OpenFile(path) => RequestModel::OpenFile(path@),
            Request::NavigateUp(dir) => RequestModel::NavigateUp(dir@),
            Request::Paste { source, destination, intent, overwrite } => RequestModel::Paste {
                source: source@,
                destination: destination@,
                intent: *intent,
                overwrite: *overwrite,
            },
            Request::Trash(path) => RequestModel::Trash(path@),
        }
    }
}

/// What a paste asks the host to carry out.
pub enum PastePlan {
    /// The copy of one file.
    File(FileCopy),
    /// The copy of a directory tree.
    Directory(CopyJob),
}

/// The mathematical value of a `PastePlan`.
pub enum PastePlanModel {
    File(FileCopyModel),
    Directory(CopyJobModel),
}

impl View for PastePlan {
    type V = PastePlanModel;

    open spec fn view(&self) -> PastePlanModel {
        match self {
            PastePlan::File(copy) => PastePlanModel::File(copy@),
            PastePlan::Directory(job) => PastePlanModel::Directory(job@),
        }
    }
}

/// The mathematical value of an `App`.
pub struct AppModel {
    pub app_state: AppState,
    pub nav: NavModel,
    pub status_text: Seq<char>,
    /// Whether the status text is a message that the description of the
    /// selected entry must not replace.
    pub notice: bool,
    pub clipboard: Option<ClipboardModel>,
}

impl AppModel {
    /// Whether the navigation state is well-formed.
    pub open spec fn well_formed(self) -> bool {
        self.nav.well_formed()
    }

    /// The application as it starts in `init_dir`.
    pub open spec fn start(init_dir: Seq<u8>, found: Seq<RawModel>) -> AppModel {
        AppModel {
            app_state: AppState::Running,
            nav: NavModel::start(init_dir, found),
            status_text: "Hello There"@,
            notice: false,
            clipboard: None,
        }
    }

    /// This application with a failure in its status text, as a message
    /// that stays until the next key.
    pub open spec fn reporting(self, error: BrowseError) -> AppModel {
        AppModel { status_text: error_text(error), notice: true, ..self }
    }

    /// This application with a message of the host in its status text.
    pub open spec fn noting(self, text: Seq<char>) -> AppModel {
        AppModel { status_text: text, notice: true, ..self }
    }

    /// This application with the description of the selected entry in its
    /// status text. Without a selection, and while a message is shown, the
    /// status text stays.
    pub open spec fn describing(self, text: Seq<char>) -> AppModel {
        if self.nav.list.selected_entry() is Some && !self.notice {
            AppModel { status_text: text, ..self }
        } else {
            self
        }
    }

    /// This application with the failure of a result, if it is one, in its
    /// status text.
    pub open spec fn reporting_failure<T>(self, outcome: Result<T, BrowseError>) -> AppModel {
        match outcome {
            Ok(_) => self,
            Err(error) => self.reporting(error),
        }
    }

    /// This application with the selected entry marked for a paste with the
    /// given intent, in place of whatever was marked before. Without a
    /// selection only the failure is reported.
    pub open spec fn marked(self, intent: Intent) -> AppModel {
        match self.nav.list.selected_entry() {
            Some(entry) => AppModel {
                clipboard: Some(ClipboardModel { source_path: entry.path, intent }),
                ..self
            },
            None => self.reporting(BrowseError::NoSelection),
        }
    }

    /// The paste request for what the clipboard holds.
    pub open spec fn paste_request(self, intent: Intent, overwrite: bool) -> RequestModel {
        match self.clipboard {
            Some(marked) => RequestModel::Paste {
                source: marked.source_path,
                destination: self.nav.current_dir,
                intent,
                overwrite,
            },
            None => RequestModel::Nothing,
        }
    }

    /// What an action does to the running application, and what it asks of
    /// the host.
    pub open spec fn dispatched(self, action: Action) -> (AppModel, RequestModel) {
        match action {
            Action::Quit => (AppModel { app_state: AppState::Exit, ..self }, RequestModel::Nothing),
            Action::ToggleHidden => (self, RequestModel::ToggleHidden(self.nav.current_dir)),
            Action::Mark => (self.marked(Intent::Copy), RequestModel::Nothing),
            Action::Paste => match self.clipboard {
                Some(marked) => (self, self.paste_request(marked.intent, false)),
                None => (self.reporting(BrowseError::NoClipboardEntry), RequestModel::Nothing),
            },
            Action::PasteMove => match self.clipboard {
                Some(marked) => (
                    AppModel {
                        clipboard: Some(ClipboardModel { intent: Intent::Move, ..marked }),
                        ..self
                    },
                    self.paste_request(Intent::Move, false),
                ),
                None => (self.reporting(BrowseError::NoClipboardEntry), RequestModel::Nothing),
            },
            Action::PasteOver => match self.clipboard {
                Some(marked) => (
                    AppModel {
                        app_state: AppState::AwaitingConfirmation(ConfirmReason::Overwrite),
                        ..self
                    },
                    RequestModel::Nothing,
                ),
                None => (self.reporting(BrowseError::NoClipboardEntry), RequestModel::Nothing),
            },
            Action::Trash => match self.nav.list.selected_entry() {
                Some(entry) => (self, RequestModel::Trash(entry.path)),
                None => (self.reporting(BrowseError::NoSelection), RequestModel::Nothing),
            },
            Action::CursorUp => (
                AppModel { nav: self.nav.moved(Direction::Up), ..self },
                RequestModel::Nothing,
            ),
            Action::CursorDown => (
                AppModel { nav: self.nav.moved(Direction::Down), ..self },
                RequestModel::Nothing,
            ),
            Action::SwitchPanes | Action::Ignored => (self, RequestModel::Nothing),
            Action::Open => match self.nav.open_target() {
                OpenTargetModel::Nothing => (
                    self.reporting(BrowseError::NoSelection),
                    RequestModel::Nothing,
                ),
                OpenTargetModel::Unknown(_) => (
                    self.reporting(BrowseError::ReadError),
                    RequestModel::Nothing,
                ),
                OpenTargetModel::File(path) => (self, RequestModel::OpenFile(path)),
                OpenTargetModel::Directory(dir) => (self, RequestModel::OpenDirectory(dir)),
            },
            Action::NavigateUp => if self.nav.at_top() {
                (self, RequestModel::Nothing)
            } else {
                (self, RequestModel::NavigateUp(self.nav.parent_dir))
            },
        }
    }

    /// What an answer does to the application that waits for one: a yes lets
    /// the paste go ahead, a no drops it, and both return to running.
    pub open spec fn answered(self, answer: Answer) -> (AppModel, RequestModel) {
        match answer {
            Answer::Yes => (
                AppModel { app_state: AppState::Running, notice: false, ..self },
                match self.clipboard {
                    Some(marked) => self.paste_request(marked.intent, true),
                    None => RequestModel::Nothing,
                },
            ),
            Answer::No => (
                AppModel { app_state: AppState::Running, notice: false, ..self },
                RequestModel::Nothing,
            ),
            Answer::Neither => (self, RequestModel::Nothing),
        }
    }

    /// What an action does, and what it asks of the host. Actions are
    /// dispatched only while the application runs: the message of the action
    /// before is dropped, and the action is carried out. In any other state
    /// nothing happens.
    pub open spec fn acted(self, action: Action) -> (AppModel, RequestModel) {
        match self.app_state {
            AppState::Running => (AppModel { notice: false, ..self }).dispatched(action),
            _ => (self, RequestModel::Nothing),
        }
    }

    /// What a key press does, and what it asks of the host. While the
    /// application runs, the key's action is dispatched; while it waits for an
    /// answer only a yes or a no is taken; once it has ended nothing is.
    pub open spec fn key_pressed(self, key: Key) -> (AppModel, RequestModel) {
        match self.app_state {
            AppState::Running => self.acted(action_of(key)),
            AppState::AwaitingConfirmation(_) => self.answered(answer_of(key)),
            AppState::Exit => (self, RequestModel::Nothing),
        }
    }

    /// What a paste plans for a source of the given kind, where `held` lists
    /// the names that the current directory holds; with `overwrite` set none
    /// of them counts as taken. Nothing is planned without a marked entry, for
    /// a source that is gone or has no name, or for a copy onto or into
    /// itself.
    pub open spec fn paste_plan(
        self,
        source_kind: EntryKind,
        held: Seq<Seq<u8>>,
        overwrite: bool,
    ) -> Result<PastePlanModel, BrowseError> {
        match self.clipboard {
            None => Err(BrowseError::NoClipboardEntry),
            Some(marked) => match source_kind {
                EntryKind::File => match planned_copy(
                    marked.source_path,
                    self.nav.current_dir,
                    counted_names(overwrite, held),
                    marked.intent == Intent::Move,
                ) {
                    Ok(copy) => Ok(PastePlanModel::File(copy)),
                    Err(error) => Err(error),
                },
                EntryKind::Directory => if file_name_of(marked.source_path).len() == 0 {
                    Err(BrowseError::CopyError)
                } else {
                    match CopyJobModel::planned(
                        marked.source_path,
                        joined(self.nav.current_dir, file_name_of(marked.source_path)),
                        held,
                        marked.intent == Intent::Move,
                        overwrite,
                    ) {
                        Ok(job) => Ok(PastePlanModel::Directory(job)),
                        Err(error) => Err(error),
                    }
                },
                EntryKind::Unknown => Err(BrowseError::CopyError),
            },
        }
    }

    /// The application after an action that ended with `outcome` and a new
    /// reading of the current directory: the listing is shown anew, and the
    /// first failure, if any, is reported in the status text.
    pub open spec fn settled(self, outcome: Result<(), BrowseError>, read: Option<Seq<RawModel>>)
        -> AppModel {
        let shown = AppModel { nav: self.nav.refreshed(read), ..self };
        match outcome {
            Err(error) => shown.reporting(error),
            Ok(_) => if read is None {
                shown.reporting(BrowseError::ReadError)
            } else {
                shown
            },
        }
    }
}

/// Once the application has ended, no key changes it or asks for anything.
pub proof fn lemma_exit_is_final(app: AppModel, key: Key)
    requires
        app.app_state is Exit,
    ensures
        app.key_pressed(key) == (app, RequestModel::Nothing),
{
}

/// The running application ends on the key `q` and on no other, and after
/// every other key it still runs. A key without a binding changes neither
/// where the browser stands nor what is marked, and asks for nothing.
pub proof fn lemma_running_transitions(app: AppModel, key: Key)
    requires
        app.app_state is Running,
    ensures
        app.key_pressed(key).0.app_state is Exit <==> key == Key::Char('q'),
        key != Key::Char('q') ==> app.key_pressed(key).0.app_state is Running,
        action_of(key) == Action::Ignored ==> app.key_pressed(key) == (
            AppModel { notice: false, ..app },
            RequestModel::Nothing,
        ),
        action_of(key) != Action::PasteOver,
{
}

/// A paste that replaces entries of the same name is never carried out at
/// once: with an entry marked the running application waits for an answer,
/// and without one it reports the empty clipboard and keeps running.
pub proof fn lemma_paste_over_asks_first(app: AppModel)
    requires
        app.app_state is Running,
    ensures
        app.acted(Action::PasteOver).1 == RequestModel::Nothing,
        app.clipboard is Some ==> app.acted(Action::PasteOver).0.app_state
            == AppState::AwaitingConfirmation(ConfirmReason::Overwrite),
        app.clipboard is None ==> app.acted(Action::PasteOver).0 == app.reporting(
            BrowseError::NoClipboardEntry,
        ),
{
}

/// While the application waits for an answer, a key that is neither a yes nor
/// a no changes nothing and asks for nothing; a yes or a no returns to
/// running, and only a yes asks for the paste.
pub proof fn lemma_awaiting_transitions(app: AppModel, key: Key)
    requires
        app.app_state is AwaitingConfirmation,
    ensures
        answer_of(key) == Answer::Neither ==> app.key_pressed(key) == (app, RequestModel::Nothing),
        answer_of(key) != Answer::Neither ==> app.key_pressed(key).0 == (AppModel {
            app_state: AppState::Running,
            notice: false,
            ..app
        }),
        answer_of(key) == Answer::No ==> app.key_pressed(key).1 == RequestModel::Nothing,
{
}

/// A key press keeps a well-formed application well-formed.
pub proof fn lemma_key_keeps_well_formed(app: AppModel, key: Key)
    requires
        app.well_formed(),
    ensures
        app.key_pressed(key).0.well_formed(),
{
    lemma_operations_keep_well_formed(app.nav, None, Direction::Up);
    lemma_operations_keep_well_formed(app.nav, None, Direction::Down);
}

/// The application.
pub struct App {
    app_state: AppState,
    nav: NavigationState,
    status_text: String,
    notice: bool,
    clipboard: Option<Clipboard>,
}

impl View for App {
    type V = AppModel;

    closed spec fn view(&self) -> AppModel {
        AppModel {
            app_state: self.app_state,
            nav: self.nav@,
            status_text: self.status_text@,
            notice: self.notice,
            clipboard: match self.clipboard {
                Some(marked) => Some(marked@),
                None => None,
            },
        }
    }
}

impl App {
    /// The application as it starts in `init_dir`, where `found` is what the
    /// host found there: running, nothing selected, nothing marked.
    pub fn new(init_dir: &Vec<u8>, found: &Vec<RawEntry>) -> (app: App)
        ensures
            app@ == AppModel::start(init_dir@, found.deep_view()),
            app@.well_formed(),
    {
        App {
            app_state: AppState::Running,
            nav: NavigationState::new(init_dir, found),
            status_text: String::from_str("Hello There"),
            notice: false,
            clipboard: None,
        }
    }

    /// Whether the application runs, waits for an answer, or has ended.
    pub fn app_state(&self) -> (state: AppState)
        ensures
            state == self@.app_state,
    {
        self.app_state
    }

    /// Where the browser stands.
    pub fn nav(&self) -> (nav: &NavigationState)
        ensures
            nav@ == self@.nav,
    {
        &self.nav
    }

    /// The directory whose listing is shown.
    pub fn current_dir(&self) -> (dir: &Vec<u8>)
        ensures
            dir@ == self@.nav.current_dir,
    {
        self.nav.current_dir()
    }

    /// The directory that a step up leads to.
    pub fn parent_dir(&self) -> (dir: &Vec<u8>)
        ensures
            dir@ == self@.nav.parent_dir,
    {
        self.nav.parent_dir()
    }

    /// The listing of the current directory and its selection.
    pub fn dir_items(&self) -> (list: &DirListState)
        ensures
            list@ == self@.nav.list,
    {
        self.nav.dir_items()
    }

    /// Whether hidden entries are shown.
    pub fn show_hidden(&self) -> (shown: bool)
        ensures
            shown == self@.nav.show_hidden,
    {
        self.nav.show_hidden()
    }

    /// The text of the status bar.
    pub fn status_text(&self) -> (text: &String)
        ensures
            text@ == self@.status_text,
    {
        &self.status_text
    }

    /// The marked entry, if there is one.
    pub fn clipboard(&self) -> (marked: &Option<Clipboard>)
        ensures
            match marked {
                Some(entry) => self@.clipboard == Some(entry@),
                None => self@.clipboard is None,
            },
    {
        &self.clipboard
    }

    /// Handles a key press as far as that takes no input or output, and
    /// returns what is left for the host to do.
    pub fn handle_keypress(&mut self, key: Key) -> (request: Request)
        ensures
            (final(self)@, request@) == old(self)@.key_pressed(key),
            old(self)@.well_formed() ==> final(self)@.well_formed(),
    {
        proof {
            if self@.well_formed() {
                lemma_key_keeps_well_formed(self@, key);
            }
        }
        match self.app_state {
            AppState::Running => self.dispatch(key_action(key)),
            AppState::AwaitingConfirmation(_) => match key_answer(key) {
                Answer::Yes => {
                    self.app_state = AppState::Running;
                    self.notice = false;
                    match &self.clipboard {
                        Some(marked) => Request::Paste {
                            source: copy_bytes(&marked.source_path),
                            destination: copy_bytes(self.nav.current_dir()),
                            intent: marked.intent,
                            overwrite: true,
                        },
                        None => Request::Nothing,
                    }
                },
                Answer::No => {
                    self.app_state = AppState::Running;
                    self.notice = false;
                    Request::Nothing
                },
                Answer::Neither => Request::Nothing,
            },
            AppState::Exit => Request::Nothing,
        }
    }

    /// Carries out an action as far as that takes no input or output, and
    /// returns what is left for the host to do. Actions are carried out only
    /// while the application runs.
    pub fn dispatch(&mut self, action: Action) -> (request: Request)
        ensures
            (final(self)@, request@) == old(self)@.acted(action),
            old(self)@.well_formed() ==> final(self)@.well_formed(),
    {
        proof {
            if self@.well_formed() {
                lemma_operations_keep_well_formed(self@.nav, None, Direction::Up);
                lemma_operations_keep_well_formed(self@.nav, None, Direction::Down);
            }
        }
        match self.app_state {
            AppState::Running => {},
            _ => {
                return Request::Nothing;
            },
        }
        self.notice = false;
        match action {
            Action::Quit => {
                self.quit_app();
                Request::Nothing
            },
            Action::ToggleHidden => Request::ToggleHidden(copy_bytes(self.nav.current_dir())),
            Action::Mark => {
                let _ = self.add_selected_to_clipboard();
                Request::Nothing
            },
            Action::Paste => match &self.clipboard {
                Some(marked) => Request::Paste {
                    source: copy_bytes(&marked.source_path),
                    destination: copy_bytes(self.nav.current_dir()),
                    intent: marked.intent,
                    overwrite: false,
                },
                None => {
                    self.report(BrowseError::NoClipboardEntry);
                    Request::Nothing
                },
            },
            Action::PasteMove => match &self.clipboard {
                Some(marked) => {
                    let source = copy_bytes(&marked.source_path);
                    let request = Request::Paste {
                        source: copy_bytes(&source),
                        destination: copy_bytes(self.nav.current_dir()),
                        intent: Intent::Move,
                        overwrite: false,
                    };
                    self.clipboard = Some(Clipboard { source_path: source, intent: Intent::Move });
                    request
                },
                None => {
                    self.report(BrowseError::NoClipboardEntry);
                    Request::Nothing
                },
            },
            Action::PasteOver => {
                if self.clipboard.is_some() {
                    self.app_state = AppState::AwaitingConfirmation(ConfirmReason::Overwrite);
                } else {
                    self.report(BrowseError::NoClipboardEntry);
                }
                Request::Nothing
            },
            Action::Trash => match self.trash_selected() {
                Ok(path) => Request::Trash(path),
                Err(error) => {
                    self.report(error);
                    Request::Nothing
                },
            },
            Action::CursorUp => {
                self.move_cursor_up();
                Request::Nothing
            },
            Action::CursorDown => {
                self.move_cursor_down();
                Request::Nothing
            },
            Action::SwitchPanes => {
                self.switch_panes();
                Request::Nothing
            },
            Action::Ignored => Request::Nothing,
            Action::Open => match self.nav.open_target() {
                OpenTarget::Nothing => {
                    self.report(BrowseError::NoSelection);
                    Request::Nothing
                },
                OpenTarget::Unknown(_) => {
                    self.report(BrowseError::ReadError);
                    Request::Nothing
                },
                OpenTarget::File(path) => Request::OpenFile(path),
                OpenTarget::Directory(dir) => Request::OpenDirectory(dir),
            },
            Action::NavigateUp => if self.nav.at_top() {
                Request::Nothing
            } else {
                Request::NavigateUp(copy_bytes(self.nav.parent_dir()))
            },
        }
    }

    /// Asks for a paste that replaces entries of the same name. With an
    /// entry marked, the running application waits for a yes or a no before
    /// anything is pasted.
    pub fn paste_over(&mut self) -> (request: Request)
        ensures
            (final(self)@, request@) == old(self)@.acted(Action::PasteOver),
            request@ == RequestModel::Nothing,
            old(self)@.well_formed() ==> final(self)@.well_formed(),
    {
        self.dispatch(Action::PasteOver)
    }

    /// Ends the application.
    pub fn quit_app(&mut self)
        ensures
            final(self)@ == (AppModel { app_state: AppState::Exit, ..old(self)@ }),
    {
        self.app_state = AppState::Exit;
    }

    /// Moves the selection towards the first entry.
    pub fn move_cursor_up(&mut self)
        ensures
            final(self)@ == (AppModel { nav: old(self)@.nav.moved(Direction::Up), ..old(self)@ }),
    {
        self.nav.move_selection(Direction::Up);
    }

    /// Moves the selection towards the last entry.
    pub fn move_cursor_down(&mut self)
        ensures
            final(self)@ == (AppModel {
                nav: old(self)@.nav.moved(Direction::Down),
                ..old(self)@
            }),
    {
        self.nav.move_selection(Direction::Down);
    }

    /// There is one pane: switching changes nothing.
    pub fn switch_panes(&mut self)
        ensures
            final(self)@ == old(self)@,
    {
    }

    /// Marks the selected entry for a copy. Whatever was marked before is
    /// forgotten.
    pub fn add_selected_to_clipboard(&mut self) -> (outcome: Result<(), BrowseError>)
        ensures
            final(self)@ == old(self)@.marked(Intent::Copy),
            final(self)@ == old(self)@.dispatched(Action::Mark).0,
            outcome is Ok <==> old(self)@.nav.list.selected_entry() is Some,
            outcome is Err ==> outcome == Err::<(), BrowseError>(BrowseError::NoSelection),
    {
        self.mark_clipboard(Intent::Copy)
    }

    /// Marks the selected entry for a paste with the given intent. The
    /// clipboard holds one entry: whatever was marked before is forgotten.
    /// Without a selection the clipboard stays as it is.
    pub fn mark_clipboard(&mut self, intent: Intent) -> (outcome: Result<(), BrowseError>)
        ensures
            final(self)@ == old(self)@.marked(intent),
            outcome is Ok <==> old(self)@.nav.list.selected_entry() is Some,
            outcome is Err ==> outcome == Err::<(), BrowseError>(BrowseError::NoSelection),
    {
        match self.nav.dir_items().selected_entry() {
            Some(entry) => {
                let source_path = copy_bytes(&entry.path);
                self.clipboard = Some(Clipboard { source_path, intent });
                Ok(())
            },
            None => {
                self.report(BrowseError::NoSelection);
                Err(BrowseError::NoSelection)
            },
        }
    }

    /// Shows the current directory anew from what the host found in it.
    pub fn refresh_dirlist(&mut self, read: Option<&Vec<RawEntry>>) -> (outcome: Result<
        (),
        BrowseError,
    >)
        ensures
            final(self)@ == old(self)@.settled(Ok(()), found_in(read)),
            outcome is Ok <==> read is Some,
            outcome is Err ==> outcome == Err::<(), BrowseError>(BrowseError::ReadError),
            old(self)@.well_formed() ==> final(self)@.well_formed(),
    {
        let outcome = self.nav.refresh(read);
        if let Err(error) = outcome {
            self.report(error);
        }
        outcome
    }

    /// Switches hidden entries on or off and shows the current directory
    /// anew from what the host found in it.
    pub fn toggle_hidden(&mut self, read: Option<&Vec<RawEntry>>) -> (outcome: Result<
        (),
        BrowseError,
    >)
        ensures
            final(self)@ == (AppModel {
                nav: old(self)@.nav.toggled(found_in(read)),
                ..old(self)@
            }).reporting_failure(outcome),
            outcome is Ok <==> read is Some,
            outcome is Err ==> outcome == Err::<(), BrowseError>(BrowseError::ReadError),
            old(self)@.well_formed() ==> final(self)@.well_formed(),
    {
        let outcome = self.nav.toggle_hidden(read);
        if let Err(error) = outcome {
            self.report(error);
        }
        outcome
    }

    /// Opens the selected entry, where `read` is what the host found in it if
    /// it is a directory. A failure is reported in the status text.
    pub fn open_selected(&mut self, read: Option<&Vec<RawEntry>>) -> (outcome: Result<
        Opened,
        BrowseError,
    >)
        ensures
            final(self)@ == (AppModel {
                nav: old(self)@.nav.opened(found_in(read)),
                ..old(self)@
            }).reporting_failure(old(self)@.nav.open_result(found_in(read))),
            match (outcome, old(self)@.nav.open_result(found_in(read))) {
                (Ok(opened), Ok(expected)) => opened@ == expected,
                (Err(error), Err(expected)) => error == expected,
                _ => false,
            },
            old(self)@.well_formed() ==> final(self)@.well_formed(),
    {
        let outcome = self.nav.open_selected(read);
        if let Err(error) = &outcome {
            self.report(*error);
        }
        outcome
    }

    /// Steps up to the parent directory, where `read` is what the host found
    /// there. At the top this does nothing.
    pub fn nav_up_dir(&mut self, read: Option<&Vec<RawEntry>>) -> (outcome: Result<
        bool,
        BrowseError,
    >)
        ensures
            final(self)@ == (AppModel {
                nav: old(self)@.nav.went_up(found_in(read)),
                ..old(self)@
            }).reporting_failure(outcome),
            outcome == old(self)@.nav.up_result(found_in(read)),
            old(self)@.well_formed() ==> final(self)@.well_formed(),
    {
        let outcome = self.nav.navigate_up(read);
        if let Err(error) = outcome {
            self.report(error);
        }
        outcome
    }

    /// Plans the paste of the marked entry into the current directory, where
    /// `source_kind` is what the host found the marked entry to be, `held`
    /// lists the names that the current directory holds, and `overwrite` says
    /// whether entries of the same name are replaced. A file is copied under
    /// a free name; a directory starts a copy job.
    pub fn paste(&self, source_kind: EntryKind, held: &Vec<Vec<u8>>, overwrite: bool) -> (plan:
        Result<PastePlan, BrowseError>)
        ensures
            match (plan, self@.paste_plan(source_kind, names_of(held), overwrite)) {
                (Ok(planned), Ok(expected)) => planned@ == expected,
                (Err(error), Err(expected)) => error == expected,
                _ => false,
            },
            plan matches Ok(PastePlan::File(copy)) ==> copy@.to != copy@.from,
    {
        match &self.clipboard {
            None => Err(BrowseError::NoClipboardEntry),
            Some(marked) => {
                let move_contents = match marked.intent {
                    Intent::Move => true,
                    Intent::Copy => false,
                };
                match source_kind {
                    EntryKind::File => {
                        let taken = names_counted(overwrite, held);
                        match copy_file(
                            &marked.source_path,
                            self.nav.current_dir(),
                            &taken,
                            move_contents,
                        ) {
                            Ok(copy) => Ok(PastePlan::File(copy)),
                            Err(error) => Err(error),
                        }
                    },
                    EntryKind::Directory => {
                        let name = file_name(&marked.source_path);
                        if name.len() == 0 {
                            return Err(BrowseError::CopyError);
                        }
                        let dest_dir = join_path(self.nav.current_dir(), &name);
                        match copy_directory(
                            &marked.source_path,
                            &dest_dir,
                            held,
                            move_contents,
                            overwrite,
                        ) {
                            Ok(job) => Ok(PastePlan::Directory(job)),
                            Err(error) => Err(error),
                        }
                    },
                    EntryKind::Unknown => Err(BrowseError::CopyError),
                }
            },
        }
    }

    /// Completes a paste that ended with `outcome`: the clipboard is emptied
    /// whatever the outcome, and the current directory is shown anew from
    /// what the host found in it.
    pub fn finish_paste(&mut self, outcome: Result<(), BrowseError>, read: Option<&Vec<RawEntry>>)
        ensures
            final(self)@ == (AppModel { clipboard: None, ..old(self)@ }).settled(
                outcome,
                found_in(read),
            ),
            old(self)@.well_formed() ==> final(self)@.well_formed(),
    {
        self.clipboard = None;
        self.settle(outcome, read);
    }

    /// The path of the selected entry, for the host to send to the trash.
    pub fn trash_selected(&self) -> (selected: Result<Vec<u8>, BrowseError>)
        ensures
            match selected {
                Ok(path) => self@.nav.list.selected_entry() matches Some(entry) && path@
                    == entry.path,
                Err(error) => self@.nav.list.selected_entry() is None && error
                    == BrowseError::NoSelection,
            },
    {
        match self.nav.dir_items().selected_entry() {
            Some(entry) => Ok(copy_bytes(&entry.path)),
            None => Err(BrowseError::NoSelection),
        }
    }

    /// Completes a delete to the trash: the current directory is shown anew
    /// from what the host found in it, and a failure is reported.
    pub fn finish_trash(&mut self, trashed: bool, read: Option<&Vec<RawEntry>>)
        ensures
            final(self)@ == old(self)@.settled(
                if trashed {
                    Ok(())
                } else {
                    Err(BrowseError::DeleteError)
                },
                found_in(read),
            ),
            old(self)@.well_formed() ==> final(self)@.well_formed(),
    {
        let outcome = if trashed {
            Ok(())
        } else {
            Err(BrowseError::DeleteError)
        };
        self.settle(outcome, read);
    }

    /// Shows `text`, a message of the host, in the status bar. It stays
    /// until the next key.
    pub fn set_status(&mut self, text: String)
        ensures
            final(self)@ == old(self)@.noting(text@),
    {
        self.status_text = text;
        self.notice = true;
    }

    /// Shows `text`, the description of the selected entry, in the status bar.
    /// Without a selection, and while a failure or a message of the host is
    /// shown, the status bar keeps its text.
    pub fn update_status_bar(&mut self, text: String)
        ensures
            final(self)@ == old(self)@.describing(text@),
    {
        if self.nav.dir_items().selected_entry().is_some() && !self.notice {
            self.status_text = text;
        }
    }

    /// Shows a failure in the status bar.
    fn report(&mut self, error: BrowseError)
        ensures
            final(self)@ == old(self)@.reporting(error),
    {
        self.status_text = error.message();
        self.notice = true;
    }

    /// Shows the current directory anew and reports the first failure.
    fn settle(&mut self, outcome: Result<(), BrowseError>, read: Option<&Vec<RawEntry>>)
        ensures
            final(self)@ == old(self)@.settled(outcome, found_in(read)),
            old(self)@.well_formed() ==> final(self)@.well_formed(),
    {
        let shown = self.nav.refresh(read);
        match outcome {
            Err(error) => {
                self.report(error);
            },
            Ok(_) => {
                if let Err(error) = shown {
                    self.report(error);
                }
            },
        }
    }
}

} // verus!
