//! The logic of `ls`: flags and operands, which entries are listed and in
//! which order, and how each entry is rendered (`-F` suffixes, colours and
//! the `-l` line).

use vstd::prelude::*;
use crate::color::{paint, painted, Fg};
use crate::datetime::{datetime_at, format_mtime, stamp_text};
use crate::numfmt::{dec_digits, decimal_chars, pad_left, pad_left_chars, right_aligned};
use crate::path::{joined_path, resolve_path};
use crate::order::{is_stable_order, stable_order};
use crate::text::{any_piece_matches, some_piece_matches, chars_of, lowercase, lowercase_of, push_str_chars, split_seq, string_from_chars, strip_dots, uppercase, uppercase_of};
use vstd::string::StringExecFns;

verus! {

/// The `ls` builtin.
pub struct Ls;

/// The options of `ls`: `-a`, `-l` and `-F`.
#[derive(Clone, Copy, Debug, PartialEq, Eq)]
pub struct LsFlags {
    pub all: bool,
    pub long: bool,
    pub classify: bool,
}

/// What `ls` was asked for: its options, the paths to list (the current
/// directory when none is named), and the option letters it does not know,
/// in the order they were given.
#[derive(Debug)]
pub struct LsRequest {
    pub flags: LsFlags,
    pub paths: Vec<String>,
    pub unsupported: Vec<char>,
}

/// An argument that is a bundle of option letters: `-` and at least one more character.
pub open spec fn is_flag_arg(a: Seq<char>) -> bool {
    a.len() > 1 && a[0] == '-'
}

/// Some option argument among `args[1..]` holds the letter `c`.
pub open spec fn has_flag(args: Seq<Seq<char>>, c: char) -> bool {
    exists|i: int, j: int|
        1 <= i < args.len() && is_flag_arg(args[i]) && 1 <= j < args[i].len() && #[trigger] args[i][j] == c
}

/// The letters among `s` other than `a`, `l` and `F`, in order.
pub open spec fn unknown_in(s: Seq<char>) -> Seq<char>
    decreases s.len(),
{
    if s.len() == 0 {
        Seq::empty()
    } else {
        let c = s.last();
        unknown_in(s.drop_last()) + if c != 'a' && c != 'l' && c != 'F' { seq![c] } else { Seq::empty() }
    }
}

/// The letters of an option argument that `ls` does not know.
pub open spec fn unknown_letters(a: Seq<char>) -> Seq<char> {
    if is_flag_arg(a) {
        unknown_in(a.drop_first())
    } else {
        Seq::empty()
    }
}

/// The unknown option letters of `args`, in order.
pub open spec fn unknown_letters_of(args: Seq<Seq<char>>) -> Seq<char>
    decreases args.len(),
{
    if args.len() == 0 {
        Seq::empty()
    } else {
        unknown_letters_of(args.drop_last()) + unknown_letters(args.last())
    }
}

/// The operands of `args`, in order: the arguments that are not options.
pub open spec fn operands_of(args: Seq<Seq<char>>) -> Seq<Seq<char>>
    decreases args.len(),
{
    if args.len() == 0 {
        Seq::empty()
    } else if is_flag_arg(args.last()) {
        operands_of(args.drop_last())
    } else {
        operands_of(args.drop_last()).push(args.last())
    }
}

/// The operands of `ls` are its arguments that are not option bundles, in
/// their order.
pub proof fn law_operands_are_non_options(args: Seq<Seq<char>>)
    ensures
        operands_of(args) == args.filter(|a: Seq<char>| !(a.len() > 1 && a[0] == '-')),
    decreases args.len(),
{
    reveal(Seq::filter);
    if args.len() > 0 {
        law_operands_are_non_options(args.drop_last());
    }
}

/// The arguments after the command name.
pub open spec fn after_name(args: Seq<Seq<char>>) -> Seq<Seq<char>> {
    if args.len() == 0 {
        Seq::empty()
    } else {
        args.skip(1)
    }
}

/// The views of a vector of strings.
pub open spec fn views(v: Seq<String>) -> Seq<Seq<char>> {
    v.map_values(|s: String| s@)
}

proof fn lemma_views_push(v: Seq<String>, s: String)
    ensures
        views(v.push(s)) == views(v).push(s@),
{
    assert(views(v.push(s)) =~= views(v).push(s@));
}

/// The operands resolved against the working directory `cwd`.
pub open spec fn resolved_against(cwd: Seq<char>, ops: Seq<Seq<char>>) -> Seq<Seq<char>> {
    ops.map_values(|p: Seq<char>| joined_path(cwd, p))
}

/// Reads the options and operands of `ls` (`argv[0]` is the command name).
/// An argument `-xyz` sets the options its letters name; any other argument
/// is a path, kept when absolute and joined onto `cwd` otherwise. Without
/// paths, `cwd` is listed.
pub fn parse_flags_and_paths(argv: &Vec<String>, cwd: &str) -> (r: LsRequest)
    ensures
        r.flags.all == has_flag(views(argv@), 'a'),
        r.flags.long == has_flag(views(argv@), 'l'),
        r.flags.classify == has_flag(views(argv@), 'F'),
        views(r.paths@) == if operands_of(after_name(views(argv@))).len() == 0 {
            seq![cwd@]
        } else {
            resolved_against(cwd@, operands_of(after_name(views(argv@))))
        },
        r.unsupported@ == unknown_letters_of(after_name(views(argv@))),
{
    let ghost args = views(argv@);
    let mut flags = LsFlags { all: false, long: false, classify: false };
    let mut paths: Vec<String> = Vec::new();
    let mut unsupported: Vec<char> = Vec::new();
    let start: usize = if argv.len() == 0 { 0 } else { 1 };
    let ghost rest = after_name(args);
    let mut i: usize = start;
    proof {
        assert(rest.take(0) =~= Seq::<Seq<char>>::empty());
        assert(views(paths@) =~= Seq::<Seq<char>>::empty());
        assert(resolved_against(cwd@, Seq::<Seq<char>>::empty()) =~= Seq::<Seq<char>>::empty());
    }
    while i < argv.len()
        invariant
            args == views(argv@),
            rest == after_name(args),
            start == (if argv@.len() == 0 { 0usize } else { 1usize }),
            start <= i <= argv@.len(),
            flags.all == (exists|k: int, j: int|
                1 <= k < i && is_flag_arg(args[k]) && 1 <= j < args[k].len() && #[trigger] args[k][j] == 'a'),
            flags.long == (exists|k: int, j: int|
                1 <= k < i && is_flag_arg(args[k]) && 1 <= j < args[k].len() && #[trigger] args[k][j] == 'l'),
            flags.classify == (exists|k: int, j: int|
                1 <= k < i && is_flag_arg(args[k]) && 1 <= j < args[k].len() && #[trigger] args[k][j] == 'F'),
            views(paths@) == resolved_against(cwd@, operands_of(rest.take(i - start))),
            unsupported@ == unknown_letters_of(rest.take(i - start)),
        decreases argv.len() - i,
    {
        let a = chars_of(argv[i].as_str());
        assert(a@ == args[i as int]);
        let ghost prefix = rest.take(i - start);
        assert(rest.take(i - start + 1) =~= prefix.push(args[i as int]));
        assert(rest.take(i - start + 1).drop_last() =~= prefix);
        if a.len() > 1 && a[0] == '-' {
            let mut j: usize = 1;
            let ghost base = unsupported@;
            let ghost fa = flags.all;
            let ghost fl = flags.long;
            let ghost fc = flags.classify;
            assert(a@.drop_first().take(0) =~= Seq::<char>::empty());
            while j < a.len()
                invariant
                    1 <= j <= a.len(),
                    a@ == args[i as int],
                    is_flag_arg(a@),
                    unsupported@ == base + unknown_in(a@.drop_first().take(j - 1)),
                    flags.all == (fa || exists|m: int| 1 <= m < j && a@[m] == 'a'),
                    flags.long == (fl || exists|m: int| 1 <= m < j && a@[m] == 'l'),
                    flags.classify == (fc || exists|m: int| 1 <= m < j && a@[m] == 'F'),
                decreases a.len() - j,
            {
                let c = a[j];
                let ghost t = a@.drop_first().take(j - 1);
                assert(a@.drop_first().take(j as int) =~= t.push(c));
                assert(t.push(c).drop_last() =~= t);
                if c == 'a' {
                    flags.all = true;
                } else if c == 'l' {
                    flags.long = true;
                } else if c == 'F' {
                    flags.classify = true;
                } else {
                    unsupported.push(c);
                }
                assert(unsupported@ =~= base + unknown_in(a@.drop_first().take(j as int)));
                j = j + 1;
            }
            assert(a@.drop_first().take(a.len() - 1) =~= a@.drop_first());
            proof {
                assert(flags.all == (exists|k: int, j: int|
                    1 <= k < i + 1 && is_flag_arg(args[k]) && 1 <= j < args[k].len() && #[trigger] args[k][j] == 'a')) by {
                    if exists|m: int| 1 <= m < a.len() && a@[m] == 'a' {
                        let m = choose|m: int| 1 <= m < a.len() && a@[m] == 'a';
                        assert(args[i as int][m] == 'a');
                    }
                }
                assert(flags.long == (exists|k: int, j: int|
                    1 <= k < i + 1 && is_flag_arg(args[k]) && 1 <= j < args[k].len() && #[trigger] args[k][j] == 'l')) by {
                    if exists|m: int| 1 <= m < a.len() && a@[m] == 'l' {
                        let m = choose|m: int| 1 <= m < a.len() && a@[m] == 'l';
                        assert(args[i as int][m] == 'l');
                    }
                }
                assert(flags.classify == (exists|k: int, j: int|
                    1 <= k < i + 1 && is_flag_arg(args[k]) && 1 <= j < args[k].len() && #[trigger] args[k][j] == 'F')) by {
                    if exists|m: int| 1 <= m < a.len() && a@[m] == 'F' {
                        let m = choose|m: int| 1 <= m < a.len() && a@[m] == 'F';
                        assert(args[i as int][m] == 'F');
                    }
                }
            }
        } else {
            let p = resolve_path(cwd, argv[i].as_str());
            let ghost before = paths@;
            paths.push(p);
            proof {
                lemma_views_push(before, p);
                assert(resolved_against(cwd@, operands_of(prefix).push(args[i as int])) =~=
                    resolved_against(cwd@, operands_of(prefix)).push(joined_path(cwd@, args[i as int])));
                assert(unknown_letters(args[i as int]) =~= Seq::<char>::empty());
                assert(unsupported@ =~= unknown_letters_of(prefix) + unknown_letters(args[i as int]));
            }
        }
        i = i + 1;
    }
    assert(rest.take(i - start) =~= rest);
    if paths.len() == 0 {
        let c = String::from_str(cwd);
        let ghost before = paths@;
        paths.push(c);
        proof {
            lemma_views_push(before, c);
        }
    }
    LsRequest { flags, paths, unsupported }
}

/// What `ls` reads of a file's metadata.
#[derive(Clone, Copy, Debug, PartialEq, Eq)]
pub struct EntryInfo {
    /// `st_mode`: the file type and permission bits.
    pub mode: u32,
    pub is_dir: bool,
    pub is_file: bool,
    pub is_symlink: bool,
    pub nlink: u64,
    pub uid: u32,
    pub gid: u32,
    pub size: u64,
    /// Modification time, seconds since the epoch.
    pub mtime: i64,
}

/// The file-type letter of a mode, as `ls -l` shows it.
pub open spec fn file_type_letter(mode: u32) -> char {
    let t = mode & 0o170000u32;
    if t == 0o040000u32 {
        'd'
    } else if t == 0o120000u32 {
        'l'
    } else if t == 0o020000u32 {
        'c'
    } else if t == 0o060000u32 {
        'b'
    } else if t == 0o010000u32 {
        'p'
    } else if t == 0o140000u32 {
        's'
    } else if t == 0o100000u32 {
        '-'
    } else {
        '?'
    }
}

/// The file-type letter of a mode: `d` directory, `l` symbolic link, `c`
/// character device, `b` block device, `p` FIFO, `s` socket, `-` regular
/// file, `?` anything else.
pub fn file_type_char_unix(mode: u32) -> (c: char)
    ensures
        c == file_type_letter(mode),
{
    let t: u32 = mode & 0o170000u32;
    if t == 0o040000u32 {
        'd'
    } else if t == 0o120000u32 {
        'l'
    } else if t == 0o020000u32 {
        'c'
    } else if t == 0o060000u32 {
        'b'
    } else if t == 0o010000u32 {
        'p'
    } else if t == 0o140000u32 {
        's'
    } else if t == 0o100000u32 {
        '-'
    } else {
        '?'
    }
}

/// `letter` when `bit` is set in `mode`, `-` otherwise.
pub open spec fn perm_letter(mode: u32, bit: u32, letter: char) -> char {
    if mode & bit != 0 {
        letter
    } else {
        '-'
    }
}

/// The ten-character mode string of `ls -l`, such as `drwxr-xr-x`.
pub open spec fn perms_text(mode: u32) -> Seq<char> {
    seq![
        file_type_letter(mode),
        perm_letter(mode, 0o400u32, 'r'),
        perm_letter(mode, 0o200u32, 'w'),
        perm_letter(mode, 0o100u32, 'x'),
        perm_letter(mode, 0o040u32, 'r'),
        perm_letter(mode, 0o020u32, 'w'),
        perm_letter(mode, 0o010u32, 'x'),
        perm_letter(mode, 0o004u32, 'r'),
        perm_letter(mode, 0o002u32, 'w'),
        perm_letter(mode, 0o001u32, 'x'),
    ]
}

fn push_perm(v: &mut Vec<char>, mode: u32, bit: u32, letter: char)
    ensures
        final(v)@ == old(v)@.push(perm_letter(mode, bit, letter)),
{
    if mode & bit != 0 {
        v.push(letter);
    } else {
        v.push('-');
    }
}

/// The mode string of `ls -l` for a Unix mode.
pub fn perms_string_unix(mode: u32) -> (r: String)
    ensures
        r@ == perms_text(mode),
{
    let mut v: Vec<char> = Vec::new();
    v.push(file_type_char_unix(mode));
    push_perm(&mut v, mode, 0o400u32, 'r');
    push_perm(&mut v, mode, 0o200u32, 'w');
    push_perm(&mut v, mode, 0o100u32, 'x');
    push_perm(&mut v, mode, 0o040u32, 'r');
    push_perm(&mut v, mode, 0o020u32, 'w');
    push_perm(&mut v, mode, 0o010u32, 'x');
    push_perm(&mut v, mode, 0o004u32, 'r');
    push_perm(&mut v, mode, 0o002u32, 'w');
    push_perm(&mut v, mode, 0o001u32, 'x');
    assert(v@ =~= perms_text(mode));
    string_from_chars(v)
}

/// The mode string shown where there are no Unix modes: the type letter,
/// then `r`, `w` unless read-only, and `x` if executable, three times.
pub open spec fn perms_text_win(info: EntryInfo, readonly: bool, executable: bool) -> Seq<char> {
    let t = if info.is_dir { 'd' } else if info.is_symlink { 'l' } else { '-' };
    let w = if readonly { '-' } else { 'w' };
    let x = if executable { 'x' } else { '-' };
    seq![t, 'r', w, x, 'r', w, x, 'r', w, x]
}

/// The mode string for systems without Unix modes.
pub fn perms_string_win(info: &EntryInfo, readonly: bool, executable: bool) -> (r: String)
    ensures
        r@ == perms_text_win(*info, readonly, executable),
{
    let t = if info.is_dir { 'd' } else if info.is_symlink { 'l' } else { '-' };
    let w = if readonly { '-' } else { 'w' };
    let x = if executable { 'x' } else { '-' };
    let mut v: Vec<char> = Vec::new();
    v.push(t);
    v.push('r');
    v.push(w);
    v.push(x);
    v.push('r');
    v.push(w);
    v.push(x);
    v.push('r');
    v.push(w);
    v.push(x);
    assert(v@ =~= perms_text_win(*info, readonly, executable));
    string_from_chars(v)
}

/// What `Path::extension` gives for a path: the part of its file name
/// after the last dot, when there is one (a function of the path alone).
pub uninterp spec fn path_extension_of(p: Seq<char>) -> Option<Seq<char>>;

/// The extension of a path's file name (std's `Path::extension`), as text.
/// The contract says only that it is the extension of the argument; the
/// rules by which `Path` finds it are not written out.
#[verifier::external_body]
fn path_extension(p: &str) -> (r: Option<String>)
    ensures
        match r {
            Some(e) => path_extension_of(p@) == Some(e@),
            None => path_extension_of(p@) is None,
        },
{
    std::path::Path::new(p).extension().map(|e| e.to_string_lossy().into_owned())
}

/// The executable extensions assumed when `PATHEXT` is not set.
pub open spec fn default_pathext() -> Seq<char> {
    ".COM;.EXE;.BAT;.CMD;.VBS;.VBE;.JS;.JSE;.WSF;.WSH;.MSC;.PS1;.MSI;.MSP"@
}

/// Where there are no execute bits, a file is executable when the
/// upper-cased extension of its name is among the `;`-separated entries of
/// the upper-cased `PATHEXT` (the default list when unset), leading dots
/// ignored on both sides; a name without extension is not executable.
pub open spec fn executable_by_extension(name: Seq<char>, pathext: Option<Seq<char>>) -> bool {
    extension_key(name).len() > 0 && some_piece_matches(pathext_list(pathext), ';', extension_key(name))
}

/// The upper-cased extension of a name; empty when it has none.
pub open spec fn extension_key(name: Seq<char>) -> Seq<char> {
    match path_extension_of(name) {
        Some(e) => uppercase_of(e),
        None => Seq::empty(),
    }
}

/// The upper-cased executable extensions: `PATHEXT` if set, else the default list.
pub open spec fn pathext_list(pathext: Option<Seq<char>>) -> Seq<char> {
    uppercase_of(
        match pathext {
            Some(p) => p,
            None => default_pathext(),
        },
    )
}

/// Whether a file is executable by the extension of its name (`pathext` is
/// the value of `PATHEXT`, if set).
pub fn is_executable_win(name: &str, pathext: Option<&str>) -> (r: bool)
    ensures
        r == executable_by_extension(name@, match pathext {
            Some(p) => Some(p@),
            None => None,
        }),
{
    let ext = match path_extension(name) {
        Some(e) => uppercase(e.as_str()),
        None => String::new(),
    };
    let ext_chars = chars_of(ext.as_str());
    if ext_chars.len() == 0 {
        return false;
    }
    let list = match pathext {
        Some(p) => uppercase(p),
        None => uppercase(".COM;.EXE;.BAT;.CMD;.VBS;.VBE;.JS;.JSE;.WSF;.WSH;.MSC;.PS1;.MSI;.MSP"),
    };
    any_piece_matches(list.as_str(), ';', &ext_chars)
}

/// The fields of an `ls -l` line where there are no Unix modes: the mode
/// string, one link, `-` for owner and group, size and modification time.
pub fn long_fields_win(info: &EntryInfo, readonly: bool, executable: bool) -> (r: (String, u64, String, String, u64, i64))
    ensures
        r.0@ == perms_text_win(*info, readonly, executable),
        r.1 == 1,
        r.2@ == "-"@,
        r.3@ == "-"@,
        r.4 == info.size,
        r.5 == info.mtime,
{
    (perms_string_win(info, readonly, executable), 1, String::from_str("-"), String::from_str("-"), info.size, info.mtime)
}

/// Some execute bit is set.
pub open spec fn executable(info: EntryInfo) -> bool {
    info.mode & 0o111u32 != 0
}

/// Whether any execute bit of the entry is set.
pub fn is_executable(info: &EntryInfo) -> (r: bool)
    ensures
        r == executable(*info),
{
    info.mode & 0o111u32 != 0
}

/// The `-F` suffix: `/` for a directory, `@` for a symbolic link, `*` for
/// an executable, nothing otherwise.
pub open spec fn suffix_of(info: EntryInfo) -> Seq<char> {
    if info.is_dir {
        "/"@
    } else if info.is_symlink {
        "@"@
    } else if executable(info) {
        "*"@
    } else {
        ""@
    }
}

/// The `-F` suffix of an entry.
pub fn classify_suffix(info: &EntryInfo) -> (r: &'static str)
    ensures
        r@ == suffix_of(*info),
{
    if info.is_dir {
        return "/";
    }
    if info.is_symlink {
        return "@";
    }
    if is_executable(info) {
        return "*";
    }
    ""
}

/// An entry's name in its listing colour: blue for directories, cyan for
/// symbolic links, green for executables, uncoloured otherwise.
pub open spec fn coloured_name(name: Seq<char>, info: EntryInfo) -> Seq<char> {
    if info.is_dir {
        painted(name, Fg::Blue)
    } else if info.is_symlink {
        painted(name, Fg::Cyan)
    } else if executable(info) {
        painted(name, Fg::Green)
    } else {
        name
    }
}

/// An entry's name in its listing colour.
pub fn colorize_name(name: &str, info: &EntryInfo) -> (r: String)
    ensures
        r@ == coloured_name(name@, *info),
{
    if info.is_dir {
        paint(name, Fg::Blue)
    } else if info.is_symlink {
        paint(name, Fg::Cyan)
    } else if is_executable(info) {
        paint(name, Fg::Green)
    } else {
        String::from_str(name)
    }
}

/// The fields of an `ls -l` line: mode string, link count, owner and group
/// ids as text, size and modification time.
pub fn long_fields(info: &EntryInfo) -> (r: (String, u64, String, String, u64, i64))
    ensures
        r.0@ == perms_text(info.mode),
        r.1 == info.nlink,
        r.2@ == dec_digits(info.uid as nat),
        r.3@ == dec_digits(info.gid as nat),
        r.4 == info.size,
        r.5 == info.mtime,
{
    let perms = perms_string_unix(info.mode);
    let owner = string_from_chars(decimal_chars(info.uid as u64));
    let group = string_from_chars(decimal_chars(info.gid as u64));
    (perms, info.nlink, owner, group, info.size, info.mtime)
}

/// The name as `ls` shows it: the coloured name followed, with `-F`, by
/// the type suffix.
pub open spec fn shown_name(name: Seq<char>, info: EntryInfo, classify: bool) -> Seq<char> {
    if classify {
        coloured_name(name, info) + suffix_of(info)
    } else {
        coloured_name(name, info)
    }
}

/// The fields of an `ls -l` line before the name: the mode string, the
/// link count (width 2), owner and group ids (width 8 each), the size
/// (width 8) and the modification stamp, each followed by a space.
pub open spec fn long_prefix(info: EntryInfo) -> Seq<char> {
    perms_text(info.mode) + seq![' '] + pad_left(dec_digits(info.nlink as nat), 2, ' ') + seq![' '] + pad_left(
        dec_digits(info.uid as nat),
        8,
        ' ',
    ) + seq![' '] + pad_left(dec_digits(info.gid as nat), 8, ' ') + seq![' '] + pad_left(
        dec_digits(info.size as nat),
        8,
        ' ',
    ) + seq![' '] + stamp_text(datetime_at(if info.mtime < 0 { 0nat } else { info.mtime as nat })) + seq![' ']
}

/// The line `ls` prints for an entry: the shown name, or with `-l` the
/// long prefix and the shown name, and ` -> target` for a symbolic link
/// whose target is known.
pub open spec fn entry_text(name: Seq<char>, info: EntryInfo, flags: LsFlags, target: Option<Seq<char>>) -> Seq<char> {
    let shown = shown_name(name, info, flags.classify);
    if flags.long {
        match target {
            Some(t) if info.is_symlink => long_prefix(info) + shown + " -> "@ + t,
            _ => long_prefix(info) + shown,
        }
    } else {
        shown
    }
}

fn shown_name_chars(name: &str, info: &EntryInfo, classify: bool) -> (v: Vec<char>)
    ensures
        v@ == shown_name(name@, *info, classify),
{
    let coloured = colorize_name(name, info);
    let mut shown = chars_of(coloured.as_str());
    if classify {
        push_str_chars(&mut shown, classify_suffix(info));
    }
    shown
}

fn push_chars(v: &mut Vec<char>, mut w: Vec<char>)
    ensures
        final(v)@ == old(v)@ + w@,
{
    v.append(&mut w);
}

fn long_prefix_chars(info: &EntryInfo) -> (v: Vec<char>)
    ensures
        v@ == long_prefix(*info),
{
    let (perms, nlink, owner, group, size, mtime) = long_fields(info);
    let mut v = chars_of(perms.as_str());
    v.push(' ');
    push_chars(&mut v, right_aligned(nlink, 2));
    v.push(' ');
    push_chars(&mut v, pad_left_chars(chars_of(owner.as_str()), 8, ' '));
    v.push(' ');
    push_chars(&mut v, pad_left_chars(chars_of(group.as_str()), 8, ' '));
    v.push(' ');
    push_chars(&mut v, right_aligned(size, 8));
    v.push(' ');
    let when = format_mtime(mtime);
    push_str_chars(&mut v, when.as_str());
    v.push(' ');
    assert(v@ =~= long_prefix(*info));
    v
}

/// The line `ls` prints for an entry (`target` is where a symbolic link
/// points, when it could be read).
pub fn print_entry(name: &str, info: &EntryInfo, flags: LsFlags, target: Option<&str>) -> (r: String)
    ensures
        r@ == entry_text(name@, *info, flags, match target {
            Some(t) => Some(t@),
            None => None,
        }),
{
    let shown = shown_name_chars(name, info, flags.classify);
    if !flags.long {
        return string_from_chars(shown);
    }
    let mut v = long_prefix_chars(info);
    push_chars(&mut v, shown);
    if info.is_symlink {
        if let Some(t) = target {
            push_str_chars(&mut v, " -> ");
            push_str_chars(&mut v, t);
        }
    }
    string_from_chars(v)
}

/// An entry's name in its listing colour on systems without Unix modes,
/// where `exec` says whether its extension marks it executable.
pub open spec fn coloured_name_win(name: Seq<char>, info: EntryInfo, exec: bool) -> Seq<char> {
    if info.is_dir {
        painted(name, Fg::Blue)
    } else if info.is_symlink {
        painted(name, Fg::Cyan)
    } else if exec {
        painted(name, Fg::Green)
    } else {
        name
    }
}

/// The `-F` suffix on systems without Unix modes.
pub open spec fn suffix_win(info: EntryInfo, exec: bool) -> Seq<char> {
    if info.is_dir {
        "/"@
    } else if info.is_symlink {
        "@"@
    } else if exec {
        "*"@
    } else {
        ""@
    }
}

/// The shown name on systems without Unix modes.
pub open spec fn shown_name_win(name: Seq<char>, info: EntryInfo, classify: bool, exec: bool) -> Seq<char> {
    if classify {
        coloured_name_win(name, info, exec) + suffix_win(info, exec)
    } else {
        coloured_name_win(name, info, exec)
    }
}

/// The fields of an `ls -l` line before the name on systems without Unix
/// modes: the mode string, a link count of 1, `-` for owner and for group,
/// the size and the modification stamp, padded as on Unix.
pub open spec fn long_prefix_win(info: EntryInfo, readonly: bool, exec: bool) -> Seq<char> {
    perms_text_win(info, readonly, exec) + seq![' '] + pad_left(dec_digits(1), 2, ' ') + seq![' '] + pad_left(
        "-"@,
        8,
        ' ',
    ) + seq![' '] + pad_left("-"@, 8, ' ') + seq![' '] + pad_left(dec_digits(info.size as nat), 8, ' ') + seq![' ']
        + stamp_text(datetime_at(if info.mtime < 0 { 0nat } else { info.mtime as nat })) + seq![' ']
}

/// The line `ls` prints for an entry on systems without Unix modes.
pub open spec fn entry_text_win(
    name: Seq<char>,
    info: EntryInfo,
    flags: LsFlags,
    target: Option<Seq<char>>,
    readonly: bool,
    exec: bool,
) -> Seq<char> {
    let shown = shown_name_win(name, info, flags.classify, exec);
    if flags.long {
        match target {
            Some(t) if info.is_symlink => long_prefix_win(info, readonly, exec) + shown + " -> "@ + t,
            _ => long_prefix_win(info, readonly, exec) + shown,
        }
    } else {
        shown
    }
}

/// The line `ls` prints for an entry on a system without Unix modes:
/// `readonly` is the entry's read-only flag and `exec` whether its
/// extension marks it executable (see [`is_executable_win`]); the mode
/// bits, link count, owner and group of `info` are not used.
pub fn print_entry_win(name: &str, info: &EntryInfo, flags: LsFlags, target: Option<&str>, readonly: bool, exec: bool) -> (r: String)
    ensures
        r@ == entry_text_win(name@, *info, flags, match target {
            Some(t) => Some(t@),
            None => None,
        }, readonly, exec),
{
    let coloured = if info.is_dir {
        paint(name, Fg::Blue)
    } else if info.is_symlink {
        paint(name, Fg::Cyan)
    } else if exec {
        paint(name, Fg::Green)
    } else {
        String::from_str(name)
    };
    let mut shown = chars_of(coloured.as_str());
    if flags.classify {
        let suffix = if info.is_dir {
            "/"
        } else if info.is_symlink {
            "@"
        } else if exec {
            "*"
        } else {
            ""
        };
        push_str_chars(&mut shown, suffix);
    }
    assert(shown@ == shown_name_win(name@, *info, flags.classify, exec));
    if !flags.long {
        return string_from_chars(shown);
    }
    let (perms, nlink, owner, group, size, mtime) = long_fields_win(info, readonly, exec);
    let mut v = chars_of(perms.as_str());
    v.push(' ');
    push_chars(&mut v, right_aligned(nlink, 2));
    v.push(' ');
    push_chars(&mut v, pad_left_chars(chars_of(owner.as_str()), 8, ' '));
    v.push(' ');
    push_chars(&mut v, pad_left_chars(chars_of(group.as_str()), 8, ' '));
    v.push(' ');
    push_chars(&mut v, right_aligned(size, 8));
    v.push(' ');
    let when = format_mtime(mtime);
    push_str_chars(&mut v, when.as_str());
    v.push(' ');
    assert(v@ =~= long_prefix_win(*info, readonly, exec));
    push_chars(&mut v, shown);
    if info.is_symlink {
        if let Some(t) = target {
            push_str_chars(&mut v, " -> ");
            push_str_chars(&mut v, t);
        }
    }
    string_from_chars(v)
}

/// The lines `ls` prints before the listing of the path at `index` among
/// several (`multi`): a blank line between listings, then `path:`. A
/// single path gets no header.
pub fn path_header(multi: bool, index: usize, path: &str) -> (r: Vec<String>)
    ensures
        views(r@) == if !multi {
            Seq::<Seq<char>>::empty()
        } else if index > 0 {
            seq![Seq::<char>::empty(), path@ + ":"@]
        } else {
            seq![path@ + ":"@]
        },
{
    let mut r: Vec<String> = Vec::new();
    if !multi {
        assert(views(r@) =~= Seq::<Seq<char>>::empty());
        return r;
    }
    if index > 0 {
        r.push(String::new());
    }
    let mut line = String::from_str(path);
    line.append(":");
    r.push(line);
    assert(views(r@) =~= if index > 0 {
        seq![Seq::<char>::empty(), path@ + ":"@]
    } else {
        seq![path@ + ":"@]
    });
    r
}

/// The entries `ls -a` lists besides a directory's contents: `.` for the
/// directory `dir` itself and `..` for its parent, each with its path;
/// none without `-a`.
pub fn special_entries(dir: &str, all: bool) -> (r: Vec<(String, String)>)
    ensures
        !all ==> r@.len() == 0,
        all ==> r@.len() == 2 && r@[0].0@ == "."@ && r@[0].1@ == dir@ && r@[1].0@ == ".."@
            && r@[1].1@ == joined_path(dir@, ".."@),
{
    let mut r: Vec<(String, String)> = Vec::new();
    if all {
        r.push((String::from_str("."), String::from_str(dir)));
        r.push((String::from_str(".."), resolve_path(dir, "..")));
    }
    r
}

/// The mode string reads the permission bits in owner, group, others
/// order, each as read, write, execute: position `k` (1 to 9) shows its
/// letter exactly when the bit `0o400 >> (k - 1)` is set, and `-` otherwise.
pub proof fn law_mode_string_bits(mode: u32)
    ensures
        perms_text(mode).len() == 10,
        (perms_text(mode)[1] == 'r') == (mode & 0o400u32 != 0),
        (perms_text(mode)[2] == 'w') == (mode & 0o200u32 != 0),
        (perms_text(mode)[3] == 'x') == (mode & 0o100u32 != 0),
        (perms_text(mode)[4] == 'r') == (mode & 0o040u32 != 0),
        (perms_text(mode)[5] == 'w') == (mode & 0o020u32 != 0),
        (perms_text(mode)[6] == 'x') == (mode & 0o010u32 != 0),
        (perms_text(mode)[7] == 'r') == (mode & 0o004u32 != 0),
        (perms_text(mode)[8] == 'w') == (mode & 0o002u32 != 0),
        (perms_text(mode)[9] == 'x') == (mode & 0o001u32 != 0),
        forall|k: int| 1 <= k < 10 ==> (#[trigger] perms_text(mode)[k] == '-' || perms_text(mode)[k]
            == (if k % 3 == 1 { 'r' } else if k % 3 == 2 { 'w' } else { 'x' })),
{
}

/// The first character of the mode string names the file type from the
/// type bits alone: `d` directory, `l` symbolic link, `c` character device,
/// `b` block device, `p` FIFO, `s` socket, `-` regular file, `?` otherwise.
pub proof fn law_mode_string_type(mode: u32)
    ensures
        (perms_text(mode)[0] == 'd') == (mode & 0o170000u32 == 0o040000u32),
        (perms_text(mode)[0] == 'l') == (mode & 0o170000u32 == 0o120000u32),
        (perms_text(mode)[0] == 'c') == (mode & 0o170000u32 == 0o020000u32),
        (perms_text(mode)[0] == 'b') == (mode & 0o170000u32 == 0o060000u32),
        (perms_text(mode)[0] == 'p') == (mode & 0o170000u32 == 0o010000u32),
        (perms_text(mode)[0] == 's') == (mode & 0o170000u32 == 0o140000u32),
        (perms_text(mode)[0] == '-') == (mode & 0o170000u32 == 0o100000u32),
{
}

proof fn lemma_long_prefix_start(info: EntryInfo)
    ensures
        long_prefix(info).len() >= 11,
        long_prefix(info).take(11) == perms_text(info.mode) + seq![' '],
{
    let p = long_prefix(info);
    let head = perms_text(info.mode) + seq![' '];
    assert(head.len() == 11);
    assert(p =~= head + p.skip(11));
    assert(p.take(11) =~= head);
}

/// Under `-F` the shown name always carries its type suffix, with or
/// without `-l`: the line ends with the coloured name and the suffix, then
/// ` -> target` for a symbolic link whose target is known. With `-l` the
/// line starts with the mode string and a space; without it the line is
/// just the shown name.
#[verifier::spinoff_prover]
pub proof fn law_entry_line_shape(name: Seq<char>, info: EntryInfo, flags: LsFlags, target: Option<Seq<char>>)
    ensures
        ({
            let e = entry_text(name, info, flags, target);
            let shown = if flags.classify {
                coloured_name(name, info) + suffix_of(info)
            } else {
                coloured_name(name, info)
            };
            let tail = match target {
                Some(t) if info.is_symlink && flags.long => shown + " -> "@ + t,
                _ => shown,
            };
            &&& e.len() >= tail.len()
            &&& e.subrange(e.len() - tail.len(), e.len() as int) == tail
            &&& flags.long ==> e.take(11) == perms_text(info.mode) + seq![' ']
            &&& !flags.long ==> e == shown
        }),
{
    let e = entry_text(name, info, flags, target);
    let shown = shown_name(name, info, flags.classify);
    let tail = match target {
        Some(t) if info.is_symlink && flags.long => shown + " -> "@ + t,
        _ => shown,
    };
    if flags.long {
        let p = long_prefix(info);
        lemma_long_prefix_start(info);
        assert(e == p + tail);
        assert(e.subrange(e.len() - tail.len(), e.len() as int) =~= tail);
        assert(e.take(11) =~= p.take(11));
    } else {
        assert(e.subrange(e.len() - tail.len(), e.len() as int) =~= tail);
    }
}

/// `ls` lists a directory entry: always with `-a`, otherwise only when its
/// name does not start with `.`.
pub fn is_listed(name: &str, all: bool) -> (r: bool)
    ensures
        r == (all || !(name@.len() > 0 && name@[0] == '.')),
{
    if all {
        return true;
    }
    let v = chars_of(name);
    !(v.len() > 0 && v[0] == '.')
}

/// The order in which `ls` prints entries with these names: a stable sort
/// by the lower-cased names.
pub fn listing_order(names: &Vec<String>) -> (r: Vec<usize>)
    ensures
        is_stable_order(r@, views(names@).map_values(|n: Seq<char>| lowercase_of(n))),
{
    let mut keys: Vec<Vec<char>> = Vec::new();
    let mut i: usize = 0;
    while i < names.len()
        invariant
            i <= names.len(),
            keys@.len() == i,
            forall|k: int| 0 <= k < i ==> (#[trigger] keys@[k])@ == lowercase_of(names@[k]@),
        decreases names.len() - i,
    {
        let lower = lowercase(names[i].as_str());
        keys.push(chars_of(lower.as_str()));
        i = i + 1;
    }
    let r = stable_order(&keys);
    assert(keys@.map_values(|k: Vec<char>| k@) =~= views(names@).map_values(|n: Seq<char>| lowercase_of(n)));
    r
}

} // verus!
