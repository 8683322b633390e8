use dir_browser::cli::{parse_args, requested_dir};

fn b(text: &str) -> Vec<u8> {
    text.as_bytes().to_vec()
}

#[test]
fn test_parse_single_arg() {
    let args: Vec<Vec<u8>> = vec![b("program")];
    let expected_path = b("/work");
    let result = parse_args(&args, false, Some(&b("/home/user")), &b("/work"));

    assert_eq!(result, expected_path)
}

#[test]
fn test_valid_arg_path() {
    let tmp_dirpath = b("/tmp/.tmpXyZ");
    let args: Vec<Vec<u8>> = vec![b("program"), tmp_dirpath.clone()];

    let result = parse_args(&args, true, Some(&b("/home/user")), &b("/work"));

    assert_eq!(result, tmp_dirpath);
}

#[test]
fn test_too_many_args() {
    let args: Vec<Vec<u8>> = vec![b("program"), b("Hello"), b("World")];
    let expected_path = b("/work");
    let result = parse_args(&args, true, Some(&b("/home/user")), &b("/work"));

    assert_eq!(result, expected_path);
}

#[test]
fn test_invalid_dir() {
    let args: Vec<Vec<u8>> = vec![b("program"), b("fake_dir")];
    let expected_path = b("/home/user");

    let result = parse_args(&args, false, Some(&b("/home/user")), &b("/work"));

    assert_eq!(result, expected_path);
}

#[test]
fn invalid_dir_without_home_starts_in_working_dir() {
    let args: Vec<Vec<u8>> = vec![b("program"), b("fake_dir")];
    assert_eq!(parse_args(&args, false, None, &b("/work")), b("/work"));
}

#[test]
fn empty_command_line_starts_in_working_dir() {
    assert_eq!(parse_args(&Vec::new(), true, None, &b("/work")), b("/work"));
}

#[test]
fn requested_dir_is_the_single_argument() {
    assert_eq!(requested_dir(&vec![b("program"), b("/x")]), Some(b("/x")));
    assert_eq!(requested_dir(&vec![b("program")]), None);
    assert_eq!(requested_dir(&vec![b("program"), b("a"), b("b")]), None);
    assert_eq!(requested_dir(&Vec::new()), None);
}
