use shell::builtins::{
    cat_sources, cd_target, enter_directory, cp_operands, cp_require_file, echo_line, help_lines, history_report,
    is_cross_fs_code, mv_operands, mv_recovery, mv_require_source, operands, rm_action,
    rm_args, test_colors_lines, touch_action, CatSource, MvRecovery, RmAction, RmUsage, TouchAction,
};
use shell::color::{color_for_args, code, fg_from_name, paint, Fg};
use shell::error::ShellError;
use shell::history::History;
use shell::recall::remember;
use shell::repl::ShellState;

fn args(v: &[&str]) -> Vec<String> {
    v.iter().map(|s| s.to_string()).collect()
}

#[test]
fn colour_codes() {
    assert_eq!(code(Fg::Red), "\x1b[31m");
    assert_eq!(code(Fg::Green), "\x1b[32m");
    assert_eq!(code(Fg::Yellow), "\x1b[33m");
    assert_eq!(code(Fg::Blue), "\x1b[34m");
    assert_eq!(code(Fg::Magenta), "\x1b[35m");
    assert_eq!(code(Fg::Cyan), "\x1b[36m");
    assert_eq!(code(Fg::Default), "\x1b[39m");
}

#[test]
fn painting() {
    assert_eq!(paint("x", Fg::Red), "\x1b[31mx\x1b[0m");
    assert_eq!(paint("", Fg::Default), "\x1b[39m\x1b[0m");
}

#[test]
fn colour_names() {
    assert_eq!(fg_from_name("red"), Fg::Red);
    assert_eq!(fg_from_name("green"), Fg::Green);
    assert_eq!(fg_from_name("blue"), Fg::Blue);
    assert_eq!(fg_from_name("cyan"), Fg::Cyan);
    assert_eq!(fg_from_name("yellow"), Fg::Yellow);
    assert_eq!(fg_from_name("magenta"), Fg::Magenta);
    assert_eq!(fg_from_name("Red"), Fg::Default);
    assert_eq!(fg_from_name(""), Fg::Default);
}

#[test]
fn colour_arguments() {
    assert_eq!(color_for_args(&args(&["color", "GREEN"])), Fg::Green);
    assert_eq!(color_for_args(&args(&["color", "Cyan", "x"])), Fg::Cyan);
    assert_eq!(color_for_args(&args(&["color", "pink"])), Fg::Default);
    assert_eq!(color_for_args(&args(&["color"])), Fg::Default);
}

#[test]
fn cat_reads_stdin_without_arguments() {
    assert_eq!(cat_sources(&args(&["cat"])), vec![CatSource::Stdin]);
    assert_eq!(
        cat_sources(&args(&["cat", "a", "-", "b"])),
        vec![CatSource::File("a".to_string()), CatSource::Stdin, CatSource::File("b".to_string())]
    );
}

#[test]
fn cd_targets() {
    assert_eq!(cd_target(&args(&["cd"]), Some("/home/u")), "/home/u");
    assert_eq!(cd_target(&args(&["cd"]), None), "/");
    assert_eq!(cd_target(&args(&["cd", "~/src"]), Some("/home/u")), "/home/u/src");
    assert_eq!(cd_target(&args(&["cd", "~"]), None), "/");
    assert_eq!(cd_target(&args(&["cd", "docs", "x"]), Some("/home/u")), "docs");
}

#[test]
fn cp_and_mv_need_two_operands() {
    match cp_operands(&args(&["cp", "a"])) {
        Err(ShellError::Usage(u)) => assert_eq!(u, "usage: cp SRC DST"),
        _ => panic!("expected a usage error"),
    }
    match cp_operands(&args(&["cp", "a", "b"])) {
        Ok((s, d)) => assert_eq!((s.as_str(), d.as_str()), ("a", "b")),
        _ => panic!("expected operands"),
    }
    match mv_operands(&args(&["mv", "a", "b", "c"])) {
        Err(ShellError::Usage(u)) => assert_eq!(u, "usage: mv SRC DST"),
        _ => panic!("expected a usage error"),
    }
    match mv_operands(&args(&["mv", "a", "b"])) {
        Ok((s, d)) => assert_eq!((s.as_str(), d.as_str()), ("a", "b")),
        _ => panic!("expected operands"),
    }
}

#[test]
fn cp_copies_files_only() {
    assert!(cp_require_file(true).is_ok());
    match cp_require_file(false) {
        Err(ShellError::Usage(u)) => assert_eq!(u, "cp currently supports file->file or file->dir"),
        _ => panic!("expected a usage error"),
    }
}

#[test]
fn mv_missing_source() {
    assert!(mv_require_source("a", true).is_ok());
    match mv_require_source("gone", false) {
        Err(ShellError::NotFound(n)) => assert_eq!(n, "gone"),
        _ => panic!("expected not found"),
    }
}

#[test]
fn mv_after_failed_rename() {
    assert!(matches!(mv_recovery(true, true), MvRecovery::CopyThenRemove));
    match mv_recovery(true, false) {
        MvRecovery::Refuse(ShellError::Usage(u)) => {
            assert_eq!(u, "mv across filesystems currently supports files only")
        }
        _ => panic!("expected a refusal"),
    }
    assert!(matches!(mv_recovery(false, true), MvRecovery::ReportRenameError));
    assert!(matches!(mv_recovery(false, false), MvRecovery::ReportRenameError));
}

#[test]
fn cross_device_errors() {
    assert!(is_cross_fs_code(Some(18), Some(18)));
    assert!(is_cross_fs_code(Some(17), Some(17)));
    assert!(!is_cross_fs_code(Some(2), Some(18)));
    assert!(!is_cross_fs_code(None, Some(18)));
    assert!(!is_cross_fs_code(Some(18), None));
    assert!(!is_cross_fs_code(None, None));
    let e = std::io::Error::from_raw_os_error(libc::EXDEV);
    assert!(is_cross_fs_code(e.raw_os_error(), Some(libc::EXDEV)));
}

#[test]
fn io_errors_convert() {
    let e: ShellError = std::io::Error::new(std::io::ErrorKind::Other, "boom").into();
    assert!(matches!(e, ShellError::Io(_)));
}

#[test]
fn echo_lines() {
    assert_eq!(echo_line(&args(&["echo"])), "");
    assert_eq!(echo_line(&args(&["echo", "Hello There"])), "Hello There");
    assert_eq!(echo_line(&args(&["echo", "a", "", "b"])), "a  b");
}

#[test]
fn operands_after_the_name() {
    assert_eq!(operands(&args(&["mkdir", "a", "b"])), args(&["a", "b"]));
    assert!(operands(&args(&["mkdir"])).is_empty());
    assert!(operands(&args(&[])).is_empty());
}

#[test]
fn rm_arguments() {
    assert_eq!(rm_args(&args(&["rm"])).err(), Some(RmUsage::MissingOperand));
    assert_eq!(rm_args(&args(&["rm", "-r"])).err(), Some(RmUsage::MissingOperandAfterFlag));
    let a = rm_args(&args(&["rm", "a", "-r", "b"])).unwrap();
    assert!(a.recursive);
    assert_eq!(a.targets, args(&["a", "b"]));
    let a = rm_args(&args(&["rm", "a"])).unwrap();
    assert!(!a.recursive);
    assert_eq!(a.targets, args(&["a"]));
}

#[test]
fn rm_actions() {
    assert_eq!(rm_action(true, true), RmAction::RemoveTree);
    assert_eq!(rm_action(true, false), RmAction::RefuseDirectory);
    assert_eq!(rm_action(false, true), RmAction::RemoveFile);
    assert_eq!(rm_action(false, false), RmAction::RemoveFile);
}

#[test]
fn touch_actions() {
    assert_eq!(touch_action(true), TouchAction::Refresh);
    assert_eq!(touch_action(false), TouchAction::Create);
}

#[test]
fn help_text_lines() {
    let lines = help_lines();
    assert_eq!(lines.len(), 23);
    assert_eq!(lines[0], "\x1b[36m0-shell Built-in Commands:\x1b[0m");
    assert_eq!(lines[1], "");
    assert_eq!(lines[2], "  \x1b[32mcat\x1b[0m  Display file contents");
    assert_eq!(lines[15], "  \x1b[32mexit\x1b[0m  Exit the shell");
    assert_eq!(lines[17], "\x1b[33mBonus Features:\x1b[0m");
    assert_eq!(lines[22], "  • Ctrl+C to exit shell");
}

#[test]
fn colour_test_lines() {
    let lines = test_colors_lines();
    assert_eq!(lines.len(), 19);
    assert_eq!(lines[0], "=== Color System Test ===");
    assert_eq!(lines[2], "\x1b[31m■ Red text\x1b[0m");
    assert_eq!(lines[10], "\x1b[31mError message in red\x1b[0m");
    assert_eq!(lines[13], "📁 \x1b[34mdirectory\x1b[0m");
    assert_eq!(lines[14], "📄 normal_file.txt");
}

#[test]
fn empty_history_report() {
    let sh = ShellState::new("/".to_string());
    let lines = history_report(&sh.history);
    assert_eq!(
        lines,
        args(&["\x1b[36mCommand History:\x1b[0m", "", "  \x1b[31mNo commands in history\x1b[0m"])
    );
}

#[test]
fn history_report_numbers_lines() {
    let mut sh = ShellState::new("/".to_string());
    assert!(remember(&mut sh.history, "ls"));
    assert!(remember(&mut sh.history, "pwd"));
    let lines = history_report(&sh.history);
    assert_eq!(
        lines,
        args(&[
            "\x1b[36mCommand History:\x1b[0m",
            "",
            "  \x1b[33m  1\x1b[0m  ls",
            "  \x1b[33m  2\x1b[0m  pwd",
        ])
    );
}

#[test]
fn history_skips_blank_and_repeated_lines() {
    let mut sh = ShellState::new("/".to_string());
    assert!(remember(&mut sh.history, "ls"));
    assert!(!remember(&mut sh.history, "ls"));
    assert!(!remember(&mut sh.history, ""));
    assert!(remember(&mut sh.history, " ls"));
    assert!(remember(&mut sh.history, "ls"));
    assert_eq!(history_report(&sh.history).len(), 5);
}

#[test]
fn history_keeps_the_last_hundred_lines() {
    let mut sh = ShellState::new("/".to_string());
    for i in 0..105 {
        assert!(remember(&mut sh.history, &format!("cmd{}", i)));
    }
    let lines = history_report(&sh.history);
    assert_eq!(lines.len(), 102);
    assert_eq!(lines[2], "  \x1b[33m  1\x1b[0m  cmd5");
    assert_eq!(lines[101], "  \x1b[33m100\x1b[0m  cmd104");
}

#[test]
fn plain_history_add_then_get() {
    let mut h = History::new();
    assert!(h.get(0).is_none());
    h.add("ls".to_string());
    h.add("pwd".to_string());
    assert_eq!(h.get(0).map(|s| s.as_str()), Some("ls"));
    assert_eq!(h.get(1).map(|s| s.as_str()), Some("pwd"));
    assert!(h.get(2).is_none());
    assert_eq!(h.commands.len(), 2);
}

#[test]
fn cd_records_the_canonical_directory() {
    let mut sh = ShellState::new("/".to_string());
    enter_directory(&mut sh, "/h/../tmp", Some("/tmp".to_string()));
    assert_eq!(sh.cwd, "/tmp");
    enter_directory(&mut sh, "/tmp/x", None);
    assert_eq!(sh.cwd, "/tmp/x");
    assert!(sh.running);
}
