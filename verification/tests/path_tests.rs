use shell::error::ShellError;
use shell::path::{abbreviate_home, destination, entry_name, resolve_path};

#[test]
fn absolute_operands_are_kept() {
    assert_eq!(resolve_path("/h", "/tmp"), "/tmp");
    assert_eq!(resolve_path("", "/"), "/");
}

#[test]
fn relative_operands_are_joined() {
    assert_eq!(resolve_path("/h", "d"), "/h/d");
    assert_eq!(resolve_path("/h/", "d/e"), "/h/d/e");
    assert_eq!(resolve_path("/", "etc"), "/etc");
    assert_eq!(resolve_path("", "d"), "d");
    assert_eq!(resolve_path("/h", ""), "/h/");
    assert_eq!(resolve_path("/h", "../x"), "/h/../x");
}

#[test]
fn home_is_shown_as_tilde() {
    assert_eq!(abbreviate_home("/home/u", Some("/home/u")), "~");
    assert_eq!(abbreviate_home("/home/u/a/b", Some("/home/u")), "~/a/b");
    assert_eq!(abbreviate_home("/home/user", Some("/home/u")), "/home/user");
    assert_eq!(abbreviate_home("/home", Some("/home/u")), "/home");
    assert_eq!(abbreviate_home("/home/u", None), "/home/u");
    assert_eq!(abbreviate_home("/x", Some("")), "/x");
}

#[test]
fn file_names_of_paths() {
    assert_eq!(entry_name("/h/notes.txt"), "notes.txt");
    assert_eq!(entry_name("/h/dir/"), "dir");
    assert_eq!(entry_name("/"), "");
    assert_eq!(entry_name("/h/.."), "");
}

#[test]
fn copy_destinations() {
    assert_eq!(destination("a/b.txt", "out", false).unwrap(), "out");
    assert_eq!(destination("a/b.txt", "out", true).unwrap(), "out/b.txt");
    assert_eq!(destination("b.txt", "/tmp/", true).unwrap(), "/tmp/b.txt");
    assert!(matches!(destination("..", "out", true), Err(ShellError::Usage("invalid SRC filename"))));
    assert!(matches!(destination("/", "out", true), Err(ShellError::Usage("invalid SRC filename"))));
}
