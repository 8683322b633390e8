use dir_browser::app::{
    key_action, key_answer, Action, Answer, App, AppState, Clipboard, ConfirmReason, Intent, Key,
    PastePlan, Request,
};
use dir_browser::dir::{EntryKind, RawEntry};
use dir_browser::entry::FileCopy;
use dir_browser::error::BrowseError;
use dir_browser::nav::{NavigationState, OpenTarget, Opened};
use dir_browser::selection::{DirListState, Direction};
use dir_browser::tree_copy::Transfer;

fn b(text: &str) -> Vec<u8> {
    text.as_bytes().to_vec()
}

fn raw(name: &str, kind: EntryKind) -> RawEntry {
    RawEntry { name: b(name), kind }
}

fn project_root() -> Vec<RawEntry> {
    vec![
        raw("src", EntryKind::Directory),
        raw("target", EntryKind::Directory),
        raw("Cargo.lock", EntryKind::File),
        raw("Cargo.toml", EntryKind::File),
        raw("README.md", EntryKind::File),
        raw("LICENSE", EntryKind::File),
        raw(".git", EntryKind::Directory),
        raw(".gitignore", EntryKind::File),
        raw(".vscode", EntryKind::Directory),
    ]
}

fn setup() -> App {
    App::new(&b("/home/user/project"), &project_root())
}

fn selected_name(app: &App) -> Option<Vec<u8>> {
    app.dir_items().selected_entry().map(|e| e.name.clone())
}

#[test]
fn test_app_state() {
    let test_app = setup();
    assert_eq!(test_app.app_state(), AppState::Running)
}

#[test]
fn test_keypress_q() {
    let mut test_app = setup();
    test_app.handle_keypress(Key::Char('q'));
    assert_eq!(test_app.app_state(), AppState::Exit);
}

#[test]
fn test_keypress_space_dir() {
    let mut test_app = setup();
    test_app.refresh_dirlist(Some(&project_root())).unwrap();
    while selected_name(&test_app) != Some(b("src")) {
        test_app.handle_keypress(Key::Down);
    }
    let request = test_app.handle_keypress(Key::Char(' '));
    assert_eq!(request, Request::OpenDirectory(b("/home/user/project/src")));
    let inside = vec![raw("main.rs", EntryKind::File)];
    assert_eq!(test_app.open_selected(Some(&inside)), Ok(Opened::Directory));
    assert_eq!(test_app.current_dir(), &b("/home/user/project/src"));
    assert_eq!(test_app.parent_dir(), &b("/home/user/project"));
    assert_eq!(selected_name(&test_app), Some(b("main.rs")));
}

#[test]
fn test_keypress_space_file() {
    let mut test_app = setup();
    test_app.refresh_dirlist(Some(&project_root())).unwrap();
    let request = test_app.handle_keypress(Key::Char(' '));
    assert_eq!(request, Request::OpenFile(b("/home/user/project/Cargo.lock")));
    assert_eq!(
        test_app.open_selected(None),
        Ok(Opened::File(b("/home/user/project/Cargo.lock")))
    );
    assert_eq!(test_app.current_dir(), &b("/home/user/project"));
    assert_eq!(test_app.app_state(), AppState::Running);
}

#[test]
fn test_keypress_del() {
    let found = vec![raw("test_file.txt", EntryKind::File), raw("a", EntryKind::File)];
    let mut test_app = App::new(&b("/tmp/x"), &found);
    test_app.refresh_dirlist(Some(&found)).unwrap();

    loop {
        if selected_name(&test_app) == Some(b("test_file.txt")) {
            break;
        }
        test_app.handle_keypress(Key::Down);
    }
    let request = test_app.handle_keypress(Key::Delete);

    assert_eq!(request, Request::Trash(b("/tmp/x/test_file.txt")));
    let rest = vec![raw("a", EntryKind::File)];
    test_app.finish_trash(true, Some(&rest));
    assert_eq!(test_app.dir_items().len(), 1);
    assert_eq!(selected_name(&test_app), Some(b("a")));
}

#[test]
fn test_keypress_copy() {
    let found = vec![raw("copy_test.txt", EntryKind::File), raw("a", EntryKind::File)];
    let mut test_app = App::new(&b("/tmp/x"), &found);
    test_app.refresh_dirlist(Some(&found)).unwrap();

    loop {
        if selected_name(&test_app) == Some(b("copy_test.txt")) {
            break;
        }
        test_app.handle_keypress(Key::Down);
    }

    test_app.handle_keypress(Key::Char('c'));

    let result = test_app.clipboard().clone();

    assert_eq!(
        result.unwrap(),
        Clipboard { source_path: b("/tmp/x/copy_test.txt"), intent: Intent::Copy }
    );
}

#[test]
fn test_keypress_paste() {
    let found = vec![raw("paste_file.txt", EntryKind::File)];
    let mut test_app = App::new(&b("/tmp/src"), &found);
    test_app.refresh_dirlist(Some(&found)).unwrap();
    test_app.handle_keypress(Key::Char('c'));

    let request = test_app.handle_keypress(Key::Left);
    assert_eq!(request, Request::NavigateUp(b("/tmp")));
    let tmp = vec![raw("src", EntryKind::Directory), raw(".dest", EntryKind::Directory)];
    assert_eq!(test_app.nav_up_dir(Some(&tmp)), Ok(true));

    let request = test_app.handle_keypress(Key::Char('h'));
    assert_eq!(request, Request::ToggleHidden(b("/tmp")));
    test_app.toggle_hidden(Some(&tmp)).unwrap();
    loop {
        if selected_name(&test_app) == Some(b(".dest")) {
            let request = test_app.handle_keypress(Key::Right);
            assert_eq!(request, Request::OpenDirectory(b("/tmp/.dest")));
            test_app.open_selected(Some(&Vec::new())).unwrap();
            break;
        }
        test_app.handle_keypress(Key::Down);
    }
    let request = test_app.handle_keypress(Key::Char('p'));
    assert_eq!(
        request,
        Request::Paste {
            source: b("/tmp/src/paste_file.txt"),
            destination: b("/tmp/.dest"),
            intent: Intent::Copy,
            overwrite: false
        }
    );
    match test_app.paste(EntryKind::File, &Vec::new(), false) {
        Ok(PastePlan::File(plan)) => assert_eq!(
            plan,
            FileCopy {
                from: b("/tmp/src/paste_file.txt"),
                to: b("/tmp/.dest/paste_file.txt"),
                move_contents: false
            }
        ),
        _ => panic!("a file copy was expected"),
    }
    test_app.finish_paste(Ok(()), Some(&found));
    assert_eq!(test_app.clipboard(), &None);
    assert_eq!(selected_name(&test_app), Some(b("paste_file.txt")));
}

#[test]
fn test_keypress_up() {
    let mut test_app = setup();
    test_app.handle_keypress(Key::Up);
    let result = test_app.dir_items().selected();

    assert_ne!(result, None);
    assert_eq!(result, Some(5));
}

#[test]
fn test_keypress_down() {
    let mut test_app = setup();
    test_app.handle_keypress(Key::Down);
    let result = test_app.dir_items().selected();

    assert_ne!(result, None);
    assert_eq!(result, Some(0));
}

#[test]
fn test_keypress_esc() {
    let mut test_app = setup();
    let request = test_app.handle_keypress(Key::Esc);
    assert_eq!(request, Request::NavigateUp(b("/home/user")));
    test_app.nav_up_dir(Some(&vec![raw("project", EntryKind::Directory)])).unwrap();
    let result = test_app.current_dir();
    let expected = b("/home/user");

    assert_eq!(result, &expected);
}

#[test]
fn test_keypress_backspace() {
    let mut test_app = setup();
    let request = test_app.handle_keypress(Key::Backspace);
    assert_eq!(request, Request::NavigateUp(b("/home/user")));
    test_app.nav_up_dir(Some(&Vec::new())).unwrap();
    let result = test_app.current_dir();
    let expected = b("/home/user");

    assert_eq!(result, &expected);
    assert_eq!(test_app.parent_dir(), &b("/home"));
    assert_eq!(test_app.dir_items().selected(), None);
}

#[test]
fn new_app_greets_and_selects_nothing() {
    let app = setup();
    assert_eq!(app.status_text(), "Hello There");
    assert_eq!(app.current_dir(), &b("/home/user/project"));
    assert_eq!(app.parent_dir(), &b("/home/user"));
    assert_eq!(app.dir_items().len(), 6);
    assert_eq!(app.dir_items().selected(), None);
    assert!(!app.show_hidden());
    assert_eq!(app.clipboard(), &None);
    assert_eq!(app.nav().current_dir(), &b("/home/user/project"));
}

#[test]
fn new_app_tidies_its_directory() {
    let app = App::new(&b("/home/user/"), &Vec::new());
    assert_eq!(app.current_dir(), &b("/home/user"));
    assert_eq!(app.parent_dir(), &b("/home"));
}

#[test]
fn key_bindings() {
    assert_eq!(key_action(Key::Char('q')), Action::Quit);
    assert_eq!(key_action(Key::Char('h')), Action::ToggleHidden);
    assert_eq!(key_action(Key::Char('c')), Action::Mark);
    assert_eq!(key_action(Key::Char('y')), Action::Mark);
    assert_eq!(key_action(Key::Char('p')), Action::Paste);
    assert_eq!(key_action(Key::Char('x')), Action::PasteMove);
    assert_eq!(key_action(Key::Char('o')), Action::Ignored);
    assert_eq!(key_action(Key::Delete), Action::Trash);
    assert_eq!(key_action(Key::Up), Action::CursorUp);
    assert_eq!(key_action(Key::Down), Action::CursorDown);
    assert_eq!(key_action(Key::Tab), Action::SwitchPanes);
    assert_eq!(key_action(Key::BackTab), Action::SwitchPanes);
    assert_eq!(key_action(Key::Enter), Action::Open);
    assert_eq!(key_action(Key::Char(' ')), Action::Open);
    assert_eq!(key_action(Key::Right), Action::Open);
    assert_eq!(key_action(Key::Esc), Action::NavigateUp);
    assert_eq!(key_action(Key::Backspace), Action::NavigateUp);
    assert_eq!(key_action(Key::Left), Action::NavigateUp);
    assert_eq!(key_action(Key::Char('z')), Action::Ignored);
    assert_eq!(key_action(Key::Other), Action::Ignored);
    assert_eq!(key_answer(Key::Char('y')), Answer::Yes);
    assert_eq!(key_answer(Key::Enter), Answer::Yes);
    assert_eq!(key_answer(Key::Char('n')), Answer::No);
    assert_eq!(key_answer(Key::Esc), Answer::No);
    assert_eq!(key_answer(Key::Char('q')), Answer::Neither);
    assert_eq!(key_answer(Key::Down), Answer::Neither);
}

#[test]
fn exit_is_terminal() {
    let mut app = setup();
    app.refresh_dirlist(Some(&project_root())).unwrap();
    app.handle_keypress(Key::Char('q'));
    for key in [Key::Char('h'), Key::Down, Key::Enter, Key::Char('c'), Key::Delete, Key::Esc] {
        assert_eq!(app.handle_keypress(key), Request::Nothing);
        assert_eq!(app.app_state(), AppState::Exit);
        assert_eq!(app.dir_items().selected(), Some(0));
        assert_eq!(app.clipboard(), &None);
    }
}

#[test]
fn selection_is_clamped_at_both_ends() {
    let mut app = setup();
    app.refresh_dirlist(Some(&project_root())).unwrap();
    assert_eq!(app.dir_items().selected(), Some(0));
    app.handle_keypress(Key::Up);
    assert_eq!(app.dir_items().selected(), Some(0));
    for _ in 0..20 {
        app.handle_keypress(Key::Down);
    }
    assert_eq!(app.dir_items().selected(), Some(5));
    app.handle_keypress(Key::Up);
    assert_eq!(app.dir_items().selected(), Some(4));
}

#[test]
fn moving_in_an_empty_listing_selects_nothing() {
    let mut app = App::new(&b("/empty"), &Vec::new());
    app.refresh_dirlist(Some(&Vec::new())).unwrap();
    app.handle_keypress(Key::Down);
    app.handle_keypress(Key::Up);
    assert_eq!(app.dir_items().selected(), None);
    assert_eq!(app.handle_keypress(Key::Enter), Request::Nothing);
    assert_eq!(app.status_text(), "Nothing selected");
    assert_eq!(app.handle_keypress(Key::Delete), Request::Nothing);
    assert_eq!(app.handle_keypress(Key::Char('c')), Request::Nothing);
    assert_eq!(app.clipboard(), &None);
    assert_eq!(app.open_selected(None), Err(BrowseError::NoSelection));
    assert_eq!(app.trash_selected(), Err(BrowseError::NoSelection));
    assert_eq!(app.add_selected_to_clipboard(), Err(BrowseError::NoSelection));
}

#[test]
fn paste_with_empty_clipboard_is_reported() {
    let mut app = setup();
    for key in [Key::Char('p'), Key::Char('x')] {
        app.set_status("".to_string());
        assert_eq!(app.handle_keypress(key), Request::Nothing);
        assert_eq!(app.status_text(), "Clipboard is empty");
        assert_eq!(app.app_state(), AppState::Running);
    }
    app.set_status("".to_string());
    assert_eq!(app.paste_over(), Request::Nothing);
    assert_eq!(app.status_text(), "Clipboard is empty");
    assert_eq!(app.app_state(), AppState::Running);
    assert!(matches!(
        app.paste(EntryKind::File, &Vec::new(), false),
        Err(BrowseError::NoClipboardEntry)
    ));
}

#[test]
fn second_mark_replaces_the_first() {
    let mut app = setup();
    app.refresh_dirlist(Some(&project_root())).unwrap();
    app.handle_keypress(Key::Char('c'));
    app.handle_keypress(Key::Down);
    app.handle_keypress(Key::Char('y'));
    assert_eq!(
        app.clipboard(),
        &Some(Clipboard { source_path: b("/home/user/project/Cargo.toml"), intent: Intent::Copy })
    );
}

#[test]
fn move_key_pastes_with_move_intent() {
    let mut app = setup();
    app.refresh_dirlist(Some(&project_root())).unwrap();
    app.handle_keypress(Key::Char('c'));
    let request = app.handle_keypress(Key::Char('x'));
    assert_eq!(
        request,
        Request::Paste {
            source: b("/home/user/project/Cargo.lock"),
            destination: b("/home/user/project"),
            intent: Intent::Move,
            overwrite: false
        }
    );
    match app.paste(EntryKind::File, &vec![b("Cargo.lock")], false) {
        Ok(PastePlan::File(plan)) => assert_eq!(
            plan,
            FileCopy {
                from: b("/home/user/project/Cargo.lock"),
                to: b("/home/user/project/Cargo.lock_"),
                move_contents: true
            }
        ),
        _ => panic!("a file copy was expected"),
    }
}

#[test]
fn paste_of_a_directory_starts_a_job() {
    let mut app = setup();
    app.refresh_dirlist(Some(&project_root())).unwrap();
    while selected_name(&app) != Some(b("src")) {
        app.handle_keypress(Key::Down);
    }
    app.handle_keypress(Key::Char('c'));
    app.nav_up_dir(Some(&vec![raw("project", EntryKind::Directory)])).unwrap();
    match app.paste(EntryKind::Directory, &vec![b("project"), b("src")], false) {
        Ok(PastePlan::Directory(job)) => assert_eq!(
            job.current(),
            Some(Transfer {
                from: b("/home/user/project/src"),
                to: b("/home/user/src_"),
                kind: EntryKind::Directory
            })
        ),
        _ => panic!("a directory copy was expected"),
    }
    assert!(matches!(
        app.paste(EntryKind::Unknown, &Vec::new(), false),
        Err(BrowseError::CopyError)
    ));
}

#[test]
fn finish_paste_clears_the_clipboard_on_failure_too() {
    let mut app = setup();
    app.refresh_dirlist(Some(&project_root())).unwrap();
    app.handle_keypress(Key::Char('c'));
    app.finish_paste(Err(BrowseError::CopyError), Some(&project_root()));
    assert_eq!(app.clipboard(), &None);
    assert_eq!(app.status_text(), "Unable to copy");
    assert_eq!(app.app_state(), AppState::Running);
}

#[test]
fn overwrite_waits_for_an_answer() {
    let mut app = setup();
    app.refresh_dirlist(Some(&project_root())).unwrap();
    app.handle_keypress(Key::Char('c'));
    assert_eq!(app.paste_over(), Request::Nothing);
    assert_eq!(app.app_state(), AppState::AwaitingConfirmation(ConfirmReason::Overwrite));
    assert_eq!(app.paste_over(), Request::Nothing);
    assert_eq!(app.dispatch(Action::Quit), Request::Nothing);
    let keys =
        [Key::Char('q'), Key::Down, Key::Char('h'), Key::Delete, Key::Char('p'), Key::Char('o')];
    for key in keys {
        assert_eq!(app.handle_keypress(key), Request::Nothing);
        assert_eq!(app.app_state(), AppState::AwaitingConfirmation(ConfirmReason::Overwrite));
        assert_eq!(app.dir_items().selected(), Some(0));
    }
    let request = app.handle_keypress(Key::Char('y'));
    assert_eq!(
        request,
        Request::Paste {
            source: b("/home/user/project/Cargo.lock"),
            destination: b("/home/user/project"),
            intent: Intent::Copy,
            overwrite: true
        }
    );
    assert_eq!(app.app_state(), AppState::Running);
}

#[test]
fn overwrite_can_be_refused() {
    let mut app = setup();
    app.refresh_dirlist(Some(&project_root())).unwrap();
    app.handle_keypress(Key::Char('c'));
    app.dispatch(Action::PasteOver);
    assert_eq!(app.app_state(), AppState::AwaitingConfirmation(ConfirmReason::Overwrite));
    assert_eq!(app.handle_keypress(Key::Char('n')), Request::Nothing);
    assert_eq!(app.app_state(), AppState::Running);
    assert!(app.clipboard().is_some());
}

#[test]
fn failed_read_leaves_the_listing_as_it_was() {
    let mut app = setup();
    app.refresh_dirlist(Some(&project_root())).unwrap();
    app.handle_keypress(Key::Down);
    assert_eq!(app.refresh_dirlist(None), Err(BrowseError::ReadError));
    assert_eq!(app.status_text(), "Unable to read directory");
    assert_eq!(app.dir_items().len(), 6);
    assert_eq!(app.dir_items().selected(), Some(1));
    assert_eq!(app.toggle_hidden(None), Err(BrowseError::ReadError));
    assert!(!app.show_hidden());
    assert_eq!(app.nav_up_dir(None), Err(BrowseError::ReadError));
    assert_eq!(app.current_dir(), &b("/home/user/project"));
    while selected_name(&app) != Some(b("src")) {
        app.handle_keypress(Key::Down);
    }
    assert_eq!(app.open_selected(None), Err(BrowseError::ReadError));
    assert_eq!(app.current_dir(), &b("/home/user/project"));
}

#[test]
fn refresh_keeps_the_selection_where_it_can() {
    let mut app = setup();
    app.refresh_dirlist(Some(&project_root())).unwrap();
    for _ in 0..5 {
        app.handle_keypress(Key::Down);
    }
    assert_eq!(app.dir_items().selected(), Some(5));
    app.refresh_dirlist(Some(&project_root())).unwrap();
    assert_eq!(app.dir_items().selected(), Some(5));
    let fewer = vec![raw("a", EntryKind::File), raw("b", EntryKind::File)];
    app.refresh_dirlist(Some(&fewer)).unwrap();
    assert_eq!(app.dir_items().selected(), Some(0));
    app.handle_keypress(Key::Down);
    app.refresh_dirlist(Some(&fewer)).unwrap();
    assert_eq!(app.dir_items().selected(), Some(1));
    app.refresh_dirlist(Some(&Vec::new())).unwrap();
    assert_eq!(app.dir_items().selected(), None);
    app.refresh_dirlist(Some(&fewer)).unwrap();
    assert_eq!(app.dir_items().selected(), Some(0));
}

#[test]
fn toggle_hidden_shows_and_hides() {
    let mut app = setup();
    app.toggle_hidden(Some(&project_root())).unwrap();
    assert!(app.show_hidden());
    assert_eq!(app.dir_items().len(), 9);
    app.toggle_hidden(Some(&project_root())).unwrap();
    assert!(!app.show_hidden());
    assert_eq!(app.dir_items().len(), 6);
}

#[test]
fn navigate_up_from_root_changes_nothing() {
    let mut app = App::new(&b("/"), &vec![raw("tmp", EntryKind::Directory)]);
    app.refresh_dirlist(Some(&vec![raw("tmp", EntryKind::Directory)])).unwrap();
    assert_eq!(app.handle_keypress(Key::Esc), Request::Nothing);
    assert_eq!(app.nav_up_dir(Some(&Vec::new())), Ok(false));
    assert_eq!(app.nav_up_dir(None), Ok(false));
    assert_eq!(app.current_dir(), &b("/"));
    assert_eq!(app.parent_dir(), &b("/"));
    assert_eq!(app.dir_items().len(), 1);
}

#[test]
fn navigate_up_reaches_the_root_and_stops() {
    let mut app = App::new(&b("/a/b"), &Vec::new());
    assert_eq!(app.nav_up_dir(Some(&Vec::new())), Ok(true));
    assert_eq!((app.current_dir().clone(), app.parent_dir().clone()), (b("/a"), b("/")));
    assert_eq!(app.nav_up_dir(Some(&Vec::new())), Ok(true));
    assert_eq!((app.current_dir().clone(), app.parent_dir().clone()), (b("/"), b("/")));
    assert_eq!(app.nav_up_dir(Some(&Vec::new())), Ok(false));
    assert_eq!((app.current_dir().clone(), app.parent_dir().clone()), (b("/"), b("/")));
}

#[test]
fn open_then_up_restores_both_directories() {
    let mut app = setup();
    app.refresh_dirlist(Some(&project_root())).unwrap();
    while selected_name(&app) != Some(b("target")) {
        app.handle_keypress(Key::Down);
    }
    app.open_selected(Some(&vec![raw("debug", EntryKind::Directory)])).unwrap();
    assert_eq!(app.current_dir(), &b("/home/user/project/target"));
    assert_eq!(app.parent_dir(), &b("/home/user/project"));
    assert_eq!(app.nav_up_dir(Some(&project_root())), Ok(true));
    assert_eq!(app.current_dir(), &b("/home/user/project"));
    assert_eq!(app.parent_dir(), &b("/home/user"));
    assert_eq!(app.dir_items().selected(), Some(0));
}

#[test]
fn unknown_kind_is_reported_and_not_opened() {
    let found = vec![raw("gone", EntryKind::Unknown)];
    let mut app = App::new(&b("/d"), &found);
    app.refresh_dirlist(Some(&found)).unwrap();
    assert_eq!(app.nav().open_target(), OpenTarget::Unknown(b("/d/gone")));
    assert_eq!(app.handle_keypress(Key::Enter), Request::Nothing);
    assert_eq!(app.status_text(), "Unable to read directory");
    assert_eq!(app.open_selected(Some(&Vec::new())), Err(BrowseError::ReadError));
    assert_eq!(app.current_dir(), &b("/d"));
}

#[test]
fn status_bar_follows_the_selection() {
    let mut app = setup();
    app.update_status_bar("ignored".to_string());
    assert_eq!(app.status_text(), "Hello There");
    app.refresh_dirlist(Some(&project_root())).unwrap();
    app.update_status_bar("-rw-r--r--  u  g  1 B".to_string());
    assert_eq!(app.status_text(), "-rw-r--r--  u  g  1 B");
}

#[test]
fn failed_trash_is_reported() {
    let mut app = setup();
    app.refresh_dirlist(Some(&project_root())).unwrap();
    assert_eq!(app.trash_selected(), Ok(b("/home/user/project/Cargo.lock")));
    app.finish_trash(false, Some(&project_root()));
    assert_eq!(app.status_text(), "Unable to delete");
    assert_eq!(app.dir_items().len(), 6);
}

#[test]
fn tab_changes_nothing() {
    let mut app = setup();
    app.refresh_dirlist(Some(&project_root())).unwrap();
    assert_eq!(app.handle_keypress(Key::Tab), Request::Nothing);
    assert_eq!(app.handle_keypress(Key::BackTab), Request::Nothing);
    app.switch_panes();
    assert_eq!(app.dir_items().selected(), Some(0));
    assert_eq!(app.status_text(), "Hello There");
}

#[test]
fn list_state_keeps_its_selection_in_range() {
    let found = project_root();
    let items = dir_browser::dir::get_dir_items(&b("/p"), &found, &false);
    let mut list = DirListState::new(items.clone());
    assert_eq!(list.selected(), None);
    assert!(list.selected_entry().is_none());
    list.auto_select_first();
    assert_eq!(list.selected(), Some(0));
    list.auto_select_first();
    assert_eq!(list.selected(), Some(0));
    list.move_selection(Direction::Down);
    list.move_selection(Direction::Down);
    assert_eq!(list.selected(), Some(2));
    assert_eq!(list.selected_entry(), Some(&items[2]));
    list.set_items(items.clone());
    assert_eq!(list.selected(), None);
    assert_eq!(list.items(), &items);
    list.move_selection(Direction::Up);
    assert_eq!(list.selected(), Some(5));
    list.replace_items(Vec::new());
    assert_eq!(list.selected(), None);
    list.move_selection(Direction::Up);
    list.auto_select_first();
    assert_eq!(list.selected(), None);
    assert_eq!(list.len(), 0);
}

#[test]
fn navigation_state_on_its_own() {
    let mut nav = NavigationState::new(&b("/tmp/proj/"), &project_root());
    assert_eq!(nav.current_dir(), &b("/tmp/proj"));
    assert_eq!(nav.parent_dir(), &b("/tmp"));
    assert!(!nav.show_hidden());
    assert!(!nav.at_top());
    assert_eq!(nav.open_target(), OpenTarget::Nothing);
    nav.refresh(Some(&project_root())).unwrap();
    assert_eq!(nav.open_target(), OpenTarget::File(b("/tmp/proj/Cargo.lock")));
    nav.move_selection(Direction::Up);
    assert_eq!(nav.dir_items().selected(), Some(0));
    nav.toggle_hidden(Some(&project_root())).unwrap();
    assert_eq!(nav.open_target(), OpenTarget::Directory(b("/tmp/proj/.git")));
    assert_eq!(nav.open_selected(Some(&vec![raw("HEAD", EntryKind::File)])), Ok(Opened::Directory));
    assert!(nav.show_hidden());
    assert_eq!(nav.navigate_up(Some(&project_root())), Ok(true));
    assert_eq!(nav.navigate_up(Some(&Vec::new())), Ok(true));
    assert_eq!(nav.navigate_up(Some(&Vec::new())), Ok(true));
    assert!(nav.at_top());
    assert_eq!(nav.navigate_up(Some(&Vec::new())), Ok(false));
    assert_eq!(nav.current_dir(), &b("/"));
}

#[test]
fn mark_for_move_is_kept_until_the_paste() {
    let mut app = setup();
    app.refresh_dirlist(Some(&project_root())).unwrap();
    assert_eq!(app.mark_clipboard(Intent::Move), Ok(()));
    assert_eq!(
        app.handle_keypress(Key::Char('p')),
        Request::Paste {
            source: b("/home/user/project/Cargo.lock"),
            destination: b("/home/user/project"),
            intent: Intent::Move,
            overwrite: false
        }
    );
}

#[test]
fn app_started_in_a_dotted_directory_stands_in_the_directory() {
    let mut app = App::new(&b("/a/."), &Vec::new());
    assert_eq!(app.current_dir(), &b("/a"));
    assert_eq!(app.parent_dir(), &b("/"));
    assert_eq!(app.nav_up_dir(Some(&Vec::new())), Ok(true));
    assert_eq!(app.current_dir(), &b("/"));
    assert_eq!(app.nav_up_dir(Some(&Vec::new())), Ok(false));
    let relative = App::new(&b("a/."), &Vec::new());
    assert_eq!(relative.current_dir(), &b("a"));
    assert_eq!(relative.parent_dir(), &b(""));
}

#[test]
fn paste_into_the_directory_of_the_source_never_plans_a_copy_onto_itself() {
    let mut app = setup();
    app.refresh_dirlist(Some(&project_root())).unwrap();
    app.mark_clipboard(Intent::Move).unwrap();
    assert!(matches!(
        app.paste(EntryKind::File, &Vec::new(), false),
        Err(BrowseError::CopyError)
    ));
    assert!(matches!(
        app.paste(EntryKind::File, &vec![b("Cargo.lock")], true),
        Err(BrowseError::CopyError)
    ));
    assert!(matches!(
        app.paste(EntryKind::Directory, &vec![b("Cargo.lock")], true),
        Err(BrowseError::CopyError)
    ));
    match app.paste(EntryKind::File, &vec![b("Cargo.lock")], false) {
        Ok(PastePlan::File(plan)) => assert_eq!(plan.to, b("/home/user/project/Cargo.lock_")),
        _ => panic!("a file copy was expected"),
    }
}

#[test]
fn paste_with_overwrite_keeps_the_name() {
    let mut app = setup();
    app.refresh_dirlist(Some(&project_root())).unwrap();
    app.handle_keypress(Key::Char('c'));
    app.nav_up_dir(Some(&vec![raw("project", EntryKind::Directory)])).unwrap();
    match app.paste(EntryKind::File, &vec![b("Cargo.lock")], true) {
        Ok(PastePlan::File(plan)) => assert_eq!(plan.to, b("/home/user/Cargo.lock")),
        _ => panic!("a file copy was expected"),
    }
    match app.paste(EntryKind::File, &vec![b("Cargo.lock")], false) {
        Ok(PastePlan::File(plan)) => assert_eq!(plan.to, b("/home/user/Cargo.lock_")),
        _ => panic!("a file copy was expected"),
    }
}

#[test]
fn only_q_leaves_the_running_state() {
    let keys = [
        Key::Char('h'),
        Key::Char('c'),
        Key::Char('y'),
        Key::Char('p'),
        Key::Char('x'),
        Key::Char('o'),
        Key::Char('n'),
        Key::Char(' '),
        Key::Char('Q'),
        Key::Delete,
        Key::Up,
        Key::Down,
        Key::Tab,
        Key::BackTab,
        Key::Enter,
        Key::Right,
        Key::Esc,
        Key::Backspace,
        Key::Left,
        Key::Other,
    ];
    for marked in [false, true] {
        for key in keys {
            let mut app = setup();
            app.refresh_dirlist(Some(&project_root())).unwrap();
            if marked {
                app.mark_clipboard(Intent::Copy).unwrap();
            }
            app.handle_keypress(key);
            assert_eq!(app.app_state(), AppState::Running);
        }
        let mut app = setup();
        app.handle_keypress(Key::Char('q'));
        assert_eq!(app.app_state(), AppState::Exit);
    }
}

#[test]
fn key_without_a_binding_changes_nothing() {
    let mut app = setup();
    app.refresh_dirlist(Some(&project_root())).unwrap();
    app.handle_keypress(Key::Down);
    app.mark_clipboard(Intent::Copy).unwrap();
    for key in [Key::Char('o'), Key::Char('z'), Key::Other, Key::Tab] {
        assert_eq!(app.handle_keypress(key), Request::Nothing);
        assert_eq!(app.app_state(), AppState::Running);
        assert_eq!(app.current_dir(), &b("/home/user/project"));
        assert_eq!(app.parent_dir(), &b("/home/user"));
        assert_eq!(app.dir_items().len(), 6);
        assert_eq!(app.dir_items().selected(), Some(1));
        assert!(!app.show_hidden());
        assert_eq!(
            app.clipboard(),
            &Some(Clipboard {
                source_path: b("/home/user/project/Cargo.toml"),
                intent: Intent::Copy
            })
        );
    }
}

#[test]
fn failure_stays_in_the_status_bar_until_the_next_key() {
    let mut app = setup();
    app.refresh_dirlist(Some(&project_root())).unwrap();
    assert_eq!(app.handle_keypress(Key::Char('p')), Request::Nothing);
    app.update_status_bar("-rw-r--r--  u  g  1 B".to_string());
    assert_eq!(app.status_text(), "Clipboard is empty");
    assert_eq!(app.refresh_dirlist(None), Err(BrowseError::ReadError));
    app.update_status_bar("-rw-r--r--  u  g  1 B".to_string());
    assert_eq!(app.status_text(), "Unable to read directory");
    app.handle_keypress(Key::Down);
    app.update_status_bar("-rw-r--r--  u  g  1 B".to_string());
    assert_eq!(app.status_text(), "-rw-r--r--  u  g  1 B");
    app.set_status("Unable to open".to_string());
    app.update_status_bar("-rw-r--r--  u  g  1 B".to_string());
    assert_eq!(app.status_text(), "Unable to open");
    app.handle_keypress(Key::Other);
    app.update_status_bar("-rw-r--r--  u  g  1 B".to_string());
    assert_eq!(app.status_text(), "-rw-r--r--  u  g  1 B");
}

#[test]
fn actions_are_dispatched_only_while_running() {
    let mut app = setup();
    app.refresh_dirlist(Some(&project_root())).unwrap();
    assert_eq!(app.dispatch(Action::CursorDown), Request::Nothing);
    assert_eq!(app.dir_items().selected(), Some(1));
    assert_eq!(app.dispatch(Action::ToggleHidden), Request::ToggleHidden(b("/home/user/project")));
    assert_eq!(app.dispatch(Action::Quit), Request::Nothing);
    assert_eq!(app.app_state(), AppState::Exit);
    assert_eq!(app.dispatch(Action::CursorDown), Request::Nothing);
    assert_eq!(app.dispatch(Action::ToggleHidden), Request::Nothing);
    assert_eq!(app.paste_over(), Request::Nothing);
    assert_eq!(app.dir_items().selected(), Some(1));
    assert_eq!(app.app_state(), AppState::Exit);
}
