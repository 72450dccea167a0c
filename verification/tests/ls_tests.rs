use shell::color::{name_color_by_type, Fg};
use shell::ls::{
    classify_suffix, colorize_name, is_executable_win, long_fields_win, file_type_char_unix, is_executable, is_listed, listing_order,
    long_fields, parse_flags_and_paths, path_header, perms_string_unix, perms_string_win, print_entry, print_entry_win,
    special_entries, EntryInfo, LsFlags,
};

fn info(mode: u32) -> EntryInfo {
    let t = mode & 0o170000;
    EntryInfo {
        mode,
        is_dir: t == 0o040000,
        is_file: t == 0o100000,
        is_symlink: t == 0o120000,
        nlink: 1,
        uid: 1000,
        gid: 100,
        size: 42,
        mtime: 1_700_000_000,
    }
}

fn args(v: &[&str]) -> Vec<String> {
    v.iter().map(|s| s.to_string()).collect()
}

#[test]
fn file_type_letters() {
    assert_eq!(file_type_char_unix(0o040755), 'd');
    assert_eq!(file_type_char_unix(0o120777), 'l');
    assert_eq!(file_type_char_unix(0o020600), 'c');
    assert_eq!(file_type_char_unix(0o060600), 'b');
    assert_eq!(file_type_char_unix(0o010600), 'p');
    assert_eq!(file_type_char_unix(0o140600), 's');
    assert_eq!(file_type_char_unix(0o100644), '-');
    assert_eq!(file_type_char_unix(0o000644), '?');
}

#[test]
fn mode_strings() {
    assert_eq!(perms_string_unix(0o040755), "drwxr-xr-x");
    assert_eq!(perms_string_unix(0o100644), "-rw-r--r--");
    assert_eq!(perms_string_unix(0o120777), "lrwxrwxrwx");
    assert_eq!(perms_string_unix(0o100000), "----------");
}

#[test]
fn mode_strings_without_unix_modes() {
    assert_eq!(perms_string_win(&info(0o040755), false, false), "drw-rw-rw-");
    assert_eq!(perms_string_win(&info(0o100644), true, true), "-r-xr-xr-x");
}

#[test]
fn executable_bits() {
    assert!(is_executable(&info(0o100001)));
    assert!(!is_executable(&info(0o100644)));
}

#[test]
fn classify_suffixes() {
    assert_eq!(classify_suffix(&info(0o040755)), "/");
    assert_eq!(classify_suffix(&info(0o120777)), "@");
    assert_eq!(classify_suffix(&info(0o100755)), "*");
    assert_eq!(classify_suffix(&info(0o100644)), "");
}

#[test]
fn listing_colours() {
    assert_eq!(colorize_name("d", &info(0o040755)), "\x1b[34md\x1b[0m");
    assert_eq!(colorize_name("l", &info(0o120777)), "\x1b[36ml\x1b[0m");
    assert_eq!(colorize_name("x", &info(0o100755)), "\x1b[32mx\x1b[0m");
    assert_eq!(colorize_name("f", &info(0o100644)), "f");
}

#[test]
fn type_colours() {
    assert_eq!(name_color_by_type("d", Some(&info(0o040755))), "\x1b[34md\x1b[0m");
    assert_eq!(name_color_by_type("x", Some(&info(0o100700))), "\x1b[32mx\x1b[0m");
    assert_eq!(name_color_by_type("l", Some(&info(0o120777))), "l");
    assert_eq!(name_color_by_type("f", None), "f");
    let _ = Fg::Default;
}

#[test]
fn long_listing_fields() {
    let (perms, nlink, owner, group, size, mtime) = long_fields(&info(0o100644));
    assert_eq!(perms, "-rw-r--r--");
    assert_eq!(nlink, 1);
    assert_eq!(owner, "1000");
    assert_eq!(group, "100");
    assert_eq!(size, 42);
    assert_eq!(mtime, 1_700_000_000);
}

#[test]
fn short_entry_lines() {
    let plain = LsFlags { all: false, long: false, classify: false };
    let classify = LsFlags { all: false, long: false, classify: true };
    assert_eq!(print_entry("notes", &info(0o100644), plain, None), "notes");
    assert_eq!(print_entry("bin", &info(0o040755), classify, None), "\x1b[34mbin\x1b[0m/");
}

#[test]
fn long_entry_lines() {
    let long = LsFlags { all: false, long: true, classify: false };
    assert_eq!(
        print_entry("notes", &info(0o100644), long, None),
        "-rw-r--r--  1     1000      100       42 2023-11-14 22:13 notes"
    );
    assert_eq!(
        print_entry("link", &info(0o120777), long, Some("target")),
        "lrwxrwxrwx  1     1000      100       42 2023-11-14 22:13 \x1b[36mlink\x1b[0m -> target"
    );
    assert_eq!(
        print_entry("notes", &info(0o100644), long, Some("ignored")),
        "-rw-r--r--  1     1000      100       42 2023-11-14 22:13 notes"
    );
}

#[test]
fn flags_and_paths() {
    let r = parse_flags_and_paths(&args(&["ls", "-la", "src", "-F", "-", "-xq"]), "/home");
    assert_eq!(r.flags, LsFlags { all: true, long: true, classify: true });
    assert_eq!(r.paths, args(&["/home/src", "/home/-"]));
    assert_eq!(r.unsupported, vec!['x', 'q']);
}

#[test]
fn relative_paths_are_joined_onto_the_working_directory() {
    let r = parse_flags_and_paths(&args(&["ls", "-lF", "/tmp", "d"]), "/h");
    assert_eq!(r.flags, LsFlags { all: false, long: true, classify: true });
    assert_eq!(r.paths, args(&["/tmp", "/h/d"]));
    let r = parse_flags_and_paths(&args(&["ls", "a/b", ""]), "/");
    assert_eq!(r.paths, args(&["/a/b", "/"]));
}

#[test]
fn no_paths_lists_the_working_directory() {
    let r = parse_flags_and_paths(&args(&["ls", "-l"]), "/home");
    assert_eq!(r.flags, LsFlags { all: false, long: true, classify: false });
    assert_eq!(r.paths, args(&["/home"]));
    assert!(r.unsupported.is_empty());
    let r = parse_flags_and_paths(&args(&[]), "/tmp");
    assert_eq!(r.paths, args(&["/tmp"]));
}

#[test]
fn hidden_entries() {
    assert!(!is_listed(".git", false));
    assert!(is_listed(".git", true));
    assert!(is_listed("src", false));
    assert!(is_listed("", false));
}

#[test]
fn entries_sorted_case_insensitively_and_stably() {
    let names = args(&["b", "B", "a", "C", "a"]);
    assert_eq!(listing_order(&names), vec![2, 4, 0, 1, 3]);
    let names = args(&["Zeta", "alpha", "Beta", ".", ".."]);
    assert_eq!(listing_order(&names), vec![3, 4, 1, 2, 0]);
    assert!(listing_order(&Vec::new()).is_empty());
}

#[test]
fn executables_by_extension() {
    assert!(is_executable_win("setup.exe", None));
    assert!(is_executable_win("run.Bat", None));
    assert!(!is_executable_win("notes.txt", None));
    assert!(!is_executable_win("README", None));
    assert!(!is_executable_win(".exe", None));
    assert!(is_executable_win("tool.py", Some(".PY;.EXE")));
    assert!(is_executable_win("tool.py", Some("py")));
    assert!(!is_executable_win("tool.exe", Some(".PY")));
}

#[test]
fn long_fields_without_unix_modes() {
    let (perms, nlink, owner, group, size, mtime) = long_fields_win(&info(0o100644), true, false);
    assert_eq!(perms, "-r--r--r--");
    assert_eq!((nlink, owner.as_str(), group.as_str(), size, mtime), (1, "-", "-", 42, 1_700_000_000));
}

#[test]
fn entry_lines_without_unix_modes() {
    let long = LsFlags { all: false, long: true, classify: false };
    let classify = LsFlags { all: false, long: false, classify: true };
    let plain = LsFlags { all: false, long: false, classify: false };
    let file = info(0o100644);
    assert_eq!(
        print_entry_win("notes.txt", &file, long, None, false, false),
        "-rw-rw-rw-  1        -        -       42 2023-11-14 22:13 notes.txt"
    );
    assert_eq!(
        print_entry_win("setup.exe", &file, long, None, true, true),
        "-r-xr-xr-x  1        -        -       42 2023-11-14 22:13 \x1b[32msetup.exe\x1b[0m"
    );
    assert_eq!(print_entry_win("setup.exe", &file, classify, None, false, true), "\x1b[32msetup.exe\x1b[0m*");
    assert_eq!(print_entry_win("run", &info(0o100755), plain, None, false, false), "run");
    assert_eq!(print_entry_win("docs", &info(0o040755), classify, None, false, false), "\x1b[34mdocs\x1b[0m/");
    assert_eq!(
        print_entry_win("link", &info(0o120777), long, Some("target"), false, false),
        "lrw-rw-rw-  1        -        -       42 2023-11-14 22:13 \x1b[36mlink\x1b[0m -> target"
    );
}

#[test]
fn headers_between_listed_paths() {
    assert!(path_header(false, 0, "/tmp").is_empty());
    assert_eq!(path_header(true, 0, "/tmp"), args(&["/tmp:"]));
    assert_eq!(path_header(true, 1, "/h/d"), args(&["", "/h/d:"]));
}

#[test]
fn dot_entries_with_all() {
    assert!(special_entries("/h", false).is_empty());
    assert_eq!(
        special_entries("/h", true),
        vec![(".".to_string(), "/h".to_string()), ("..".to_string(), "/h/..".to_string())]
    );
}
