//! ANSI colours: the escape codes, painting text, and the colour choices
//! of the `color` builtin and of file listings.

use vstd::prelude::*;
use crate::text::{lowercase, lowercase_of, str_eq};
use vstd::string::StringExecFns;

verus! {

/// Namespace of the colour helpers.
pub struct Color;

/// A foreground colour.
#[derive(Debug, PartialEq, Eq, Clone, Copy)]
pub enum Fg {
    Red,
    Green,
    Blue,
    Cyan,
    Yellow,
    Magenta,
    Default,
}

/// The ANSI escape sequence that selects a foreground colour.
pub open spec fn fg_code(c: Fg) -> Seq<char> {
    match c {
        Fg::Red => "\x1b[31m"@,
        Fg::Green => "\x1b[32m"@,
        Fg::Yellow => "\x1b[33m"@,
        Fg::Blue => "\x1b[34m"@,
        Fg::Magenta => "\x1b[35m"@,
        Fg::Cyan => "\x1b[36m"@,
        Fg::Default => "\x1b[39m"@,
    }
}

/// The sequence that resets all attributes.
pub open spec fn reset_code() -> Seq<char> {
    "\x1b[0m"@
}

/// `s` in colour `c`, followed by a reset.
pub open spec fn painted(s: Seq<char>, c: Fg) -> Seq<char> {
    fg_code(c) + s + reset_code()
}

/// Each colour's escape sequence is `ESC [ 3 n m` with the ANSI colour
/// number `n`: red 1, green 2, yellow 3, blue 4, magenta 5, cyan 6, and 9
/// for the terminal's default; the reset is `ESC [ 0 m`.
pub proof fn law_ansi_codes()
    ensures
        fg_code(Fg::Red) == seq!['\x1b', '[', '3', '1', 'm'],
        fg_code(Fg::Green) == seq!['\x1b', '[', '3', '2', 'm'],
        fg_code(Fg::Yellow) == seq!['\x1b', '[', '3', '3', 'm'],
        fg_code(Fg::Blue) == seq!['\x1b', '[', '3', '4', 'm'],
        fg_code(Fg::Magenta) == seq!['\x1b', '[', '3', '5', 'm'],
        fg_code(Fg::Cyan) == seq!['\x1b', '[', '3', '6', 'm'],
        fg_code(Fg::Default) == seq!['\x1b', '[', '3', '9', 'm'],
        reset_code() == seq!['\x1b', '[', '0', 'm'],
{
    reveal_strlit("\x1b[31m");
    reveal_strlit("\x1b[32m");
    reveal_strlit("\x1b[33m");
    reveal_strlit("\x1b[34m");
    reveal_strlit("\x1b[35m");
    reveal_strlit("\x1b[36m");
    reveal_strlit("\x1b[39m");
    reveal_strlit("\x1b[0m");
    assert(fg_code(Fg::Red) =~= seq!['\x1b', '[', '3', '1', 'm']);
    assert(fg_code(Fg::Green) =~= seq!['\x1b', '[', '3', '2', 'm']);
    assert(fg_code(Fg::Yellow) =~= seq!['\x1b', '[', '3', '3', 'm']);
    assert(fg_code(Fg::Blue) =~= seq!['\x1b', '[', '3', '4', 'm']);
    assert(fg_code(Fg::Magenta) =~= seq!['\x1b', '[', '3', '5', 'm']);
    assert(fg_code(Fg::Cyan) =~= seq!['\x1b', '[', '3', '6', 'm']);
    assert(fg_code(Fg::Default) =~= seq!['\x1b', '[', '3', '9', 'm']);
    assert(reset_code() =~= seq!['\x1b', '[', '0', 'm']);
}

/// The escape sequence of a colour.
pub fn code(c: Fg) -> (r: &'static str)
    ensures
        r@ == fg_code(c),
{
    match c {
        Fg::Red => "\x1b[31m",
        Fg::Green => "\x1b[32m",
        Fg::Yellow => "\x1b[33m",
        Fg::Blue => "\x1b[34m",
        Fg::Magenta => "\x1b[35m",
        Fg::Cyan => "\x1b[36m",
        Fg::Default => "\x1b[39m",
    }
}

/// `s` wrapped in the escape sequence of `color` and a reset.
pub fn paint(s: &str, color: Fg) -> (r: String)
    ensures
        r@ == painted(s@, color),
{
    let mut out = String::from_str(code(color));
    out.append(s);
    out.append("\x1b[0m");
    out
}

/// The colour a name selects: `red`, `green`, `blue`, `cyan`, `yellow` or
/// `magenta`; anything else is the default colour.
pub open spec fn fg_named(name: Seq<char>) -> Fg {
    if name == "red"@ {
        Fg::Red
    } else if name == "green"@ {
        Fg::Green
    } else if name == "blue"@ {
        Fg::Blue
    } else if name == "cyan"@ {
        Fg::Cyan
    } else if name == "yellow"@ {
        Fg::Yellow
    } else if name == "magenta"@ {
        Fg::Magenta
    } else {
        Fg::Default
    }
}

/// The `color` builtin's names select their colours, and a name it does
/// not know, such as `purple`, keeps the default.
pub proof fn law_colour_names()
    ensures
        fg_named(seq!['r', 'e', 'd']) == Fg::Red,
        fg_named(seq!['g', 'r', 'e', 'e', 'n']) == Fg::Green,
        fg_named(seq!['b', 'l', 'u', 'e']) == Fg::Blue,
        fg_named(seq!['c', 'y', 'a', 'n']) == Fg::Cyan,
        fg_named(seq!['y', 'e', 'l', 'l', 'o', 'w']) == Fg::Yellow,
        fg_named(seq!['m', 'a', 'g', 'e', 'n', 't', 'a']) == Fg::Magenta,
        fg_named(seq!['p', 'u', 'r', 'p', 'l', 'e']) == Fg::Default,
        fg_named(Seq::<char>::empty()) == Fg::Default,
{
    reveal_strlit("red");
    reveal_strlit("green");
    reveal_strlit("blue");
    reveal_strlit("cyan");
    reveal_strlit("yellow");
    reveal_strlit("magenta");
    assert("red"@ =~= seq!['r', 'e', 'd']);
    assert("green"@ =~= seq!['g', 'r', 'e', 'e', 'n']);
    assert("blue"@ =~= seq!['b', 'l', 'u', 'e']);
    assert("cyan"@ =~= seq!['c', 'y', 'a', 'n']);
    assert("yellow"@ =~= seq!['y', 'e', 'l', 'l', 'o', 'w']);
    assert("magenta"@ =~= seq!['m', 'a', 'g', 'e', 'n', 't', 'a']);
}

/// The colour a (lower-case) name selects.
pub fn fg_from_name(name: &str) -> (r: Fg)
    ensures
        r == fg_named(name@),
{
    if str_eq(name, "red") {
        Fg::Red
    } else if str_eq(name, "green") {
        Fg::Green
    } else if str_eq(name, "blue") {
        Fg::Blue
    } else if str_eq(name, "cyan") {
        Fg::Cyan
    } else if str_eq(name, "yellow") {
        Fg::Yellow
    } else if str_eq(name, "magenta") {
        Fg::Magenta
    } else {
        Fg::Default
    }
}

/// The colour the `color` builtin switches to for its arguments: the one
/// its first argument names, case-insensitively; the default colour when
/// there is none.
pub fn color_for_args(args: &Vec<String>) -> (r: Fg)
    ensures
        r == if args@.len() > 1 { fg_named(lowercase_of(args@[1]@)) } else { Fg::Default },
{
    if args.len() > 1 {
        let lower = lowercase(args[1].as_str());
        fg_from_name(lower.as_str())
    } else {
        Fg::Default
    }
}

/// How a listing shows a file name by the file's type: blue for a
/// directory, green for an executable regular file, plain otherwise and
/// when the file's metadata could not be read.
pub open spec fn typed_name(name: Seq<char>, meta: Option<crate::ls::EntryInfo>) -> Seq<char> {
    match meta {
        Some(m) => if m.is_dir {
            painted(name, Fg::Blue)
        } else if m.is_file && m.mode & 0o111u32 != 0 {
            painted(name, Fg::Green)
        } else {
            name
        },
        None => name,
    }
}

/// A file name coloured by the file's type (`meta` is its metadata, if it could be read).
pub fn name_color_by_type(name: &str, meta: Option<&crate::ls::EntryInfo>) -> (r: String)
    ensures
        r@ == typed_name(name@, match meta {
            Some(m) => Some(*m),
            None => None,
        }),
{
    if let Some(m) = meta {
        if m.is_dir {
            return paint(name, Fg::Blue);
        }
        if m.is_file && m.mode & 0o111u32 != 0 {
            return paint(name, Fg::Green);
        }
    }
    String::from_str(name)
}

} // verus!
