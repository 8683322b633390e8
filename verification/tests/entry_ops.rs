use dir_browser::dir::{EntryKind, RawEntry};
use dir_browser::entry::{
    append_duplicates, copy_file, delete_entry, delete_outcome, entry_names, name_is_taken,
    names_counted, resolve_conflict, resolve_name, FileCopy, Removal,
};
use dir_browser::error::BrowseError;

fn b(text: &str) -> Vec<u8> {
    text.as_bytes().to_vec()
}

fn taken(names: &[&str]) -> Vec<Vec<u8>> {
    names.iter().map(|n| b(n)).collect()
}

#[test]
fn entry_test_delete_file() {
    let test_filepath = b("/tmp/x/test_file.txt");

    let removal = delete_entry(&test_filepath, EntryKind::File);

    assert_eq!(removal, Ok(Removal::File(b("/tmp/x/test_file.txt"))));
}

#[test]
fn utils_test_delete_file() {
    let test_filepath = b("test_file.txt");

    let removal = delete_entry(&test_filepath, EntryKind::File);

    assert_eq!(removal, Ok(Removal::File(b("test_file.txt"))));
}

#[test]
fn entry_test_delete_dir() {
    let test_dirpath = b("/tmp/.tmpAbCdEf");

    let removal = delete_entry(&test_dirpath, EntryKind::Directory);

    assert_eq!(removal, Ok(Removal::Tree(b("/tmp/.tmpAbCdEf"))));
}

#[test]
fn utils_test_delete_dir() {
    let test_dirpath = b("/tmp/dir/");

    let removal = delete_entry(&test_dirpath, EntryKind::Directory);

    assert_eq!(removal, Ok(Removal::Tree(b("/tmp/dir/"))));
}

#[test]
fn delete_of_what_is_gone_is_a_delete_error() {
    assert_eq!(delete_entry(&b("/tmp/gone"), EntryKind::Unknown), Err(BrowseError::DeleteError));
}

#[test]
fn delete_failure_is_a_delete_error() {
    assert_eq!(delete_outcome(true), Ok(()));
    assert_eq!(delete_outcome(false), Err(BrowseError::DeleteError));
}

#[test]
fn entry_test_copy_single_file() {
    let license_filepath = b("/home/user/project/LICENSE");
    let dest_dir = b("/tmp/dest");

    let dest_path = append_duplicates(&license_filepath, &dest_dir, &taken(&[]));

    assert_eq!(dest_path, Ok(b("/tmp/dest/LICENSE")));
}

#[test]
fn utils_test_copy_single_file() {
    let license_filepath = b("/home/user/project/LICENSE");
    let dest_dir = b("/tmp/dest");

    let plan = copy_file(&license_filepath, &dest_dir, &taken(&["README.md"]), false).unwrap();

    assert_eq!(
        plan,
        FileCopy {
            from: b("/home/user/project/LICENSE"),
            to: b("/tmp/dest/LICENSE"),
            move_contents: false
        }
    );
    assert_eq!(plan.finish(true), Ok(Removal::Nothing));
}

#[test]
fn test_copy_duplicate_file() {
    let license_filepath = b("/home/user/project/LICENSE");
    let dest_dir = b("/tmp/dest");

    let first = append_duplicates(&license_filepath, &dest_dir, &taken(&[]));
    let second = append_duplicates(&license_filepath, &dest_dir, &taken(&["LICENSE"]));

    assert_eq!(first, Ok(b("/tmp/dest/LICENSE")));
    assert_eq!(second, Ok(b("/tmp/dest/LICENSE_")));
}

#[test]
fn repeated_conflicts_keep_appending() {
    let dest_dir = b("/tmp/dest");
    let third = resolve_conflict(&dest_dir, &b("foo.txt"), &taken(&["foo.txt", "foo.txt_"]));
    assert_eq!(third, b("/tmp/dest/foo.txt__"));
    let gap = resolve_conflict(&dest_dir, &b("foo.txt"), &taken(&["foo.txt", "foo.txt__"]));
    assert_eq!(gap, b("/tmp/dest/foo.txt_"));
}

#[test]
fn resolved_name_is_the_first_that_is_free() {
    assert_eq!(resolve_name(&b("a"), &taken(&[])), b("a"));
    assert_eq!(resolve_name(&b("a"), &taken(&["b", "a_"])), b("a"));
    assert_eq!(resolve_name(&b("a"), &taken(&["a"])), b("a_"));
    assert_eq!(resolve_name(&b("a"), &taken(&["a__", "a", "a_", "a"])), b("a___"));
    assert_eq!(resolve_name(&b(""), &taken(&[""])), b("_"));
}

#[test]
fn resolved_name_is_never_taken() {
    let held = taken(&["x", "x_", "x__", "y", "z_"]);
    for name in ["x", "y", "z", "x_", "z_", ""] {
        let free = resolve_name(&b(name), &held);
        assert!(!name_is_taken(&held, &free));
        assert!(free.starts_with(name.as_bytes()));
        assert!(free[name.len()..].iter().all(|c| *c == b'_'));
    }
}

#[test]
fn name_is_taken_compares_whole_names() {
    let held = taken(&["abc", "ab"]);
    assert!(name_is_taken(&held, &b("abc")));
    assert!(name_is_taken(&held, &b("ab")));
    assert!(!name_is_taken(&held, &b("a")));
    assert!(!name_is_taken(&held, &b("abcd")));
    assert!(!name_is_taken(&Vec::new(), &b("a")));
}

#[test]
fn conflict_resolution_keeps_the_destination_directory() {
    let path = resolve_conflict(&b("/"), &b("a"), &taken(&["a"]));
    assert_eq!(path, b("/a_"));
    let path = resolve_conflict(&b("dest"), &b("a"), &taken(&["a"]));
    assert_eq!(path, b("dest/a_"));
}

#[test]
fn test_move_file() {
    let test_filepath = b("/tmp/src/test_file.txt");
    let dest_dir = b("/tmp/dest");

    let plan = copy_file(&test_filepath, &dest_dir, &taken(&[]), true).unwrap();

    assert_eq!(plan.to, b("/tmp/dest/test_file.txt"));
    assert_eq!(plan.finish(true), Ok(Removal::File(b("/tmp/src/test_file.txt"))));
}

#[test]
fn failed_copy_leaves_the_source_alone() {
    let moved = copy_file(&b("/s/foo.txt"), &b("/d"), &taken(&[]), true).unwrap();
    assert_eq!(moved.finish(false), Err(BrowseError::CopyError));
    let copied = copy_file(&b("/s/foo.txt"), &b("/d"), &taken(&[]), false).unwrap();
    assert_eq!(copied.finish(false), Err(BrowseError::CopyError));
}

#[test]
fn entry_names_are_the_names_found() {
    let found = vec![
        RawEntry { name: b("b"), kind: EntryKind::File },
        RawEntry { name: b("a"), kind: EntryKind::Directory },
    ];
    assert_eq!(entry_names(&found), taken(&["b", "a"]));
    assert!(entry_names(&Vec::new()).is_empty());
}

#[test]
fn error_messages_are_distinct() {
    let all = [
        BrowseError::ReadError,
        BrowseError::CopyError,
        BrowseError::DeleteError,
        BrowseError::NoSelection,
        BrowseError::NoClipboardEntry,
    ];
    assert_eq!(BrowseError::ReadError.message(), "Unable to read directory");
    assert_eq!(BrowseError::CopyError.message(), "Unable to copy");
    assert_eq!(BrowseError::DeleteError.message(), "Unable to delete");
    assert_eq!(BrowseError::NoSelection.message(), "Nothing selected");
    assert_eq!(BrowseError::NoClipboardEntry.message(), "Clipboard is empty");
    for x in all {
        for y in all {
            assert_eq!(x.message() == y.message(), x == y);
        }
    }
}

#[test]
fn list_reports_a_failed_read() {
    let found = vec![
        RawEntry { name: b(".b"), kind: EntryKind::File },
        RawEntry { name: b("a"), kind: EntryKind::Directory },
    ];
    assert_eq!(dir_browser::dir::list(&b("/d"), None, true), Err(BrowseError::ReadError));
    let shown = dir_browser::dir::list(&b("/d"), Some(&found), false).unwrap();
    assert_eq!(shown.len(), 1);
    assert_eq!(shown[0].path, b("/d/a"));
    let all = dir_browser::dir::list(&b("/d"), Some(&found), true).unwrap();
    assert_eq!(all.len(), 2);
    assert_eq!(all, dir_browser::dir::get_dir_items(&b("/d"), &found, &true));
}

#[test]
fn source_that_ends_in_a_dot_keeps_its_name() {
    assert_eq!(append_duplicates(&b("/p/x/."), &b("/d"), &taken(&[])), Ok(b("/d/x")));
    assert_eq!(append_duplicates(&b("/p/x/./"), &b("/d"), &taken(&["x"])), Ok(b("/d/x_")));
    let plan = copy_file(&b("/p/x/."), &b("/d"), &taken(&[]), false).unwrap();
    assert_eq!(plan.to, b("/d/x"));
}

#[test]
fn source_without_a_name_is_a_copy_error() {
    for source in ["/p/..", "..", ".", "/", "", "/."] {
        assert_eq!(
            append_duplicates(&b(source), &b("/d"), &taken(&[])),
            Err(BrowseError::CopyError)
        );
        assert_eq!(copy_file(&b(source), &b("/d"), &taken(&[]), true), Err(BrowseError::CopyError));
    }
}

#[test]
fn copy_onto_itself_is_a_copy_error() {
    assert_eq!(
        copy_file(&b("/d/a.txt"), &b("/d"), &taken(&[]), true),
        Err(BrowseError::CopyError)
    );
    assert_eq!(
        copy_file(&b("/d/a.txt"), &b("/d"), &taken(&[]), false),
        Err(BrowseError::CopyError)
    );
    let plan = copy_file(&b("/d/a.txt"), &b("/d"), &taken(&["a.txt"]), true).unwrap();
    assert_eq!(plan.to, b("/d/a.txt_"));
    assert_ne!(plan.to, plan.from);
}

#[test]
fn overwrite_counts_no_name_as_taken() {
    let held = taken(&["a", "b"]);
    assert_eq!(names_counted(false, &held), held);
    assert!(names_counted(true, &held).is_empty());
    let replaced = copy_file(&b("/s/a"), &b("/d"), &names_counted(true, &held), false).unwrap();
    assert_eq!(replaced.to, b("/d/a"));
    let renamed = copy_file(&b("/s/a"), &b("/d"), &names_counted(false, &held), false).unwrap();
    assert_eq!(renamed.to, b("/d/a_"));
}
