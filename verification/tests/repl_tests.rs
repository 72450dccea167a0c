use shell::builtins::{Cat, Cd, Echo, Pwd};
use shell::color::Fg;
use shell::reg::{BuiltinKind, BuiltinRegistry};
use shell::repl::{parts, plan_line, prompt_for, repl_prompt, set_prompt_color, LineAction, ShellState};

fn words(line: &str) -> Option<Vec<String>> {
    parts(line).map(|c| c.argv)
}

fn strings(v: &[&str]) -> Vec<String> {
    v.iter().map(|s| s.to_string()).collect()
}

#[test]
fn plain_words() {
    assert_eq!(words("ls  -l   src"), Some(strings(&["ls", "-l", "src"])));
    assert_eq!(words("   "), None);
    assert_eq!(words(""), None);
}

#[test]
fn quotes_group_words() {
    assert_eq!(words("echo \"Hello There\""), Some(strings(&["echo", "Hello There"])));
    assert_eq!(words("echo 'a  b' c"), Some(strings(&["echo", "a  b", "c"])));
    assert_eq!(words("echo \"it's\""), Some(strings(&["echo", "it's"])));
    assert_eq!(words("echo 'say \"hi\"'"), Some(strings(&["echo", "say \"hi\""])));
    assert_eq!(words("a\"b c\"d"), Some(strings(&["ab cd"])));
}

#[test]
fn empty_quotes_give_no_word() {
    assert_eq!(words("echo \"\""), Some(strings(&["echo"])));
    assert_eq!(words("''"), None);
}

#[test]
fn backslash_escapes() {
    assert_eq!(words("a\\ b"), Some(strings(&["a b"])));
    assert_eq!(words("a\\\"b"), Some(strings(&["a\"b"])));
    assert_eq!(words("'a\\b'"), Some(strings(&["a\\b"])));
    assert_eq!(words("\"a\\\"b\""), Some(strings(&["a\"b"])));
    assert_eq!(words("end\\"), Some(strings(&["end"])));
}

#[test]
fn unclosed_quote_runs_to_the_end() {
    assert_eq!(words("echo 'a b"), Some(strings(&["echo", "a b"])));
}

fn registry() -> BuiltinRegistry {
    let mut reg = BuiltinRegistry::new();
    reg.register(Cat);
    reg.register(Fg::Default);
    reg.register(Echo);
    reg.register(Cd);
    reg.register(Pwd);
    reg
}

#[test]
fn special_lines() {
    let reg = registry();
    assert!(matches!(plan_line("  help", 7, &reg), LineAction::ShowHelp));
    assert!(matches!(plan_line("exit", 5, &reg), LineAction::Exit));
    assert!(matches!(plan_line("clear", 6, &reg), LineAction::Clear));
    assert!(matches!(plan_line("", 0, &reg), LineAction::EndOfInput));
    assert!(matches!(plan_line("   ", 4, &reg), LineAction::Skip));
    assert!(matches!(plan_line("exit", 0, &reg), LineAction::Exit));
}

#[test]
fn lines_become_steps() {
    let reg = registry();
    match plan_line("echo a b; nosuch x | pwd ;; | ", 31, &reg) {
        LineAction::Execute(steps) => {
            assert_eq!(steps.len(), 3);
            assert_eq!(steps[0].builtin, Some(BuiltinKind::Echo));
            assert_eq!(steps[0].argv, strings(&["echo", "a", "b"]));
            assert_eq!(steps[1].builtin, None);
            assert_eq!(steps[1].argv, strings(&["nosuch", "x"]));
            assert_eq!(steps[2].builtin, Some(BuiltinKind::Pwd));
            assert_eq!(steps[2].argv, strings(&["pwd"]));
        }
        other => panic!("unexpected {:?}", other),
    }
}

#[test]
fn colour_builtin_names() {
    let reg = registry();
    match plan_line("color RED", 10, &reg) {
        LineAction::Execute(steps) => {
            assert_eq!(steps.len(), 1);
            assert_eq!(steps[0].builtin, Some(BuiltinKind::Color));
        }
        other => panic!("unexpected {:?}", other),
    }
}

#[test]
fn prompts() {
    assert_eq!(repl_prompt("/tmp"), "/tmp $ :");
    assert_eq!(prompt_for("/tmp", None), "/tmp $ ");
    assert_eq!(prompt_for("/home/u/projects/0-shell", Some("/home/u")), "~/projects/0-shell $ ");
    assert_eq!(prompt_for("/home/u", Some("/home/u")), "~ $ ");
    assert_eq!(prompt_for("/home/u2", Some("/home/u")), "/home/u2 $ ");
    assert_eq!(prompt_for("/tmp", Some("/home/u")), "/tmp $ ");
    assert_eq!(prompt_for("/tmp", Some("")), "/tmp $ ");
}

#[test]
fn prompt_colour_is_set_case_insensitively() {
    let mut sh = ShellState::new("/".to_string());
    assert!(sh.running);
    assert_eq!(sh.prompt_color, Fg::Default);
    let c = set_prompt_color(&mut sh, &strings(&["color", "MaGenta"]));
    assert_eq!(c, Fg::Magenta);
    assert_eq!(sh.prompt_color, Fg::Magenta);
    let c = set_prompt_color(&mut sh, &strings(&["color", "purple"]));
    assert_eq!(c, Fg::Default);
    let c = set_prompt_color(&mut sh, &strings(&["color"]));
    assert_eq!(c, Fg::Default);
    assert_eq!(sh.cwd, "/");
}
