use shell::builtins::{Cat, Cd, Cp, Echo, Help, History, Mkdir, Mv, Pwd, Rm, TestColors, Touch};
use shell::color::Fg;
use shell::ls::Ls;
use shell::reg::{builtin_name, Builtin, BuiltinKind, BuiltinRegistry};

#[test]
fn builtin_names() {
    assert_eq!(Cat.name(), "cat");
    assert_eq!(Cd.name(), "cd");
    assert_eq!(Fg::Red.name(), "color");
    assert_eq!(Cp.name(), "cp");
    assert_eq!(Echo.name(), "echo");
    assert_eq!(Help.name(), "help");
    assert_eq!(History.name(), "history");
    assert_eq!(Ls.name(), "ls");
    assert_eq!(Mkdir.name(), "mkdir");
    assert_eq!(Mv.name(), "mv");
    assert_eq!(Pwd.name(), "pwd");
    assert_eq!(Rm.name(), "rm");
    assert_eq!(TestColors.name(), "test_colors");
    assert_eq!(Touch.name(), "touch");
    assert_eq!(builtin_name(BuiltinKind::Touch), "touch");
    assert_eq!(Fg::Default.kind(), BuiltinKind::Color);
}

#[test]
fn registered_builtins_are_found_by_name() {
    let mut reg = BuiltinRegistry::new();
    assert_eq!(reg.get("cat"), None);
    reg.register(Cat);
    reg.register(Cd);
    reg.register(Ls);
    assert_eq!(reg.get("cat"), Some(BuiltinKind::Cat));
    assert_eq!(reg.get("cd"), Some(BuiltinKind::Cd));
    assert_eq!(reg.get("ls"), Some(BuiltinKind::Ls));
    assert_eq!(reg.get("dog"), None);
    assert_eq!(reg.get(""), None);
}

#[test]
fn registering_twice_keeps_one_entry() {
    let mut reg = BuiltinRegistry::new();
    reg.register(Cd);
    reg.register(Pwd);
    reg.register(Cd);
    assert_eq!(reg.get("cd"), Some(BuiltinKind::Cd));
    assert_eq!(reg.get("pwd"), Some(BuiltinKind::Pwd));
}
