use shell::chaining::{chain_commands, parse_pipes};
use shell::env_vars::expand_env_vars;
use shell::numfmt::{decimal_chars, pad_left_chars, right_aligned, zero_padded_chars};
use shell::redirection::parse_redirection;
use shell::text::{chars_of, is_whitespace, split_trimmed, str_eq, trim, trim_end};

#[test]
fn whitespace_set() {
    assert!(is_whitespace(' '));
    assert!(is_whitespace('\t'));
    assert!(is_whitespace('\n'));
    assert!(is_whitespace('\u{3000}'));
    assert!(is_whitespace('\u{a0}'));
    assert!(!is_whitespace('a'));
    assert!(!is_whitespace('\u{200b}'));
    for c in ['x', ' ', '\u{85}', '\u{2029}', '_', '\u{180e}'] {
        assert_eq!(is_whitespace(c), c.is_whitespace());
    }
}

#[test]
fn characters_of_a_string() {
    assert_eq!(chars_of("hé!"), vec!['h', 'é', '!']);
    assert!(chars_of("").is_empty());
}

#[test]
fn trimming() {
    assert_eq!(trim("  a b \t"), "a b");
    assert_eq!(trim("   "), "");
    assert_eq!(trim_end("  a b \n"), "  a b");
    assert_eq!(trim("\u{3000}x\u{3000}"), "x");
}

#[test]
fn string_equality() {
    assert!(str_eq("abc", "abc"));
    assert!(!str_eq("abc", "abd"));
    assert!(!str_eq("abc", "ab"));
    assert!(str_eq("", ""));
}

#[test]
fn chaining_drops_empty_commands() {
    assert_eq!(chain_commands("ls ; ; pwd;"), vec!["ls", "pwd"]);
    assert_eq!(chain_commands("echo a;echo b"), vec!["echo a", "echo b"]);
    assert!(chain_commands(" ;; ").is_empty());
    assert!(chain_commands("").is_empty());
}

#[test]
fn pipes_keep_empty_stages() {
    assert_eq!(parse_pipes("a | b||"), vec!["a", "b", "", ""]);
    assert_eq!(parse_pipes(""), vec![""]);
    assert_eq!(parse_pipes(" cat f |  wc "), vec!["cat f", "wc"]);
}

#[test]
fn split_keeps_or_drops_empty_pieces() {
    assert_eq!(split_trimmed(",a,,b ,", ',', true), vec!["", "a", "", "b", ""]);
    assert_eq!(split_trimmed(",a,,b ,", ',', false), vec!["a", "b"]);
}

#[test]
fn decimal_rendering() {
    assert_eq!(decimal_chars(0), vec!['0']);
    assert_eq!(decimal_chars(1234), vec!['1', '2', '3', '4']);
    assert_eq!(decimal_chars(u64::MAX).into_iter().collect::<String>(), u64::MAX.to_string());
}

#[test]
fn padding() {
    assert_eq!(pad_left_chars(vec!['a'], 3, '.'), vec!['.', '.', 'a']);
    assert_eq!(pad_left_chars(vec!['a', 'b'], 1, '.'), vec!['a', 'b']);
    assert_eq!(right_aligned(7, 3).into_iter().collect::<String>(), format!("{:>3}", 7));
    assert_eq!(right_aligned(12345, 3).into_iter().collect::<String>(), "12345");
}

#[test]
fn zero_padding_matches_format() {
    for n in [-5i64, 5, 0, -1234, 12345, -99999] {
        assert_eq!(zero_padded_chars(n, 4).into_iter().collect::<String>(), format!("{:04}", n));
        assert_eq!(zero_padded_chars(n, 2).into_iter().collect::<String>(), format!("{:02}", n));
    }
}

#[test]
fn variables_are_left_as_they_are() {
    assert_eq!(expand_env_vars("echo $HOME"), "echo $HOME");
}

#[test]
fn no_redirection_is_recognised() {
    let r = parse_redirection("cat < a > b");
    assert!(r.input.is_none());
    assert!(r.output.is_none());
}

#[test]
fn trimming_twice_changes_nothing_more() {
    for s in ["  a b  ", "\t\n", "x", "", " \u{3000}y z\u{a0} "] {
        assert_eq!(trim(trim(s)), trim(s));
    }
}

#[test]
fn chained_commands_are_trimmed_and_non_empty() {
    for c in chain_commands("  a ;b;  ;\tc d ;") {
        assert!(!c.is_empty());
        assert_eq!(c, c.trim());
        assert!(!c.contains(';'));
    }
}


#[test]
fn split_pieces_join_back() {
    for s in ["a|b||c", "", "|", "abc", "||x|"] {
        let pieces = split_trimmed(s, '|', true);
        assert_eq!(pieces.join("|"), s);
        assert_eq!(pieces.len(), s.matches('|').count() + 1);
    }
}
