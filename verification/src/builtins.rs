//! The builtin commands: their names, and the decisions each one takes on
//! its arguments before it touches the file system or the terminal.

use vstd::prelude::*;
use crate::color::{paint, painted, Fg};
use crate::numfmt::{dec_digits, pad_left, right_aligned};
use crate::recall::{history_lines_of, history_snapshot};
use crate::text::string_from_chars;
use rustyline::history::MemHistory;
use crate::error::ShellError;
use crate::repl::ShellState;
use crate::ls::{views, Ls};
use crate::reg::{builtin_name, Builtin, BuiltinKind};
use crate::text::{chars_of, joined, str_eq};
use vstd::string::StringExecFns;
use vstd::string::StrSliceExecFns;

verus! {

/// `cat`: print files.
pub struct Cat;

/// `cd`: change directory.
#[derive(Debug, PartialEq, Eq, Clone, Copy)]
pub struct Cd;

/// `cp`: copy a file.
pub struct Cp;

/// `echo`: print the arguments.
#[derive(Debug, PartialEq, Eq, Clone, Copy)]
pub struct Echo;

/// `help`: describe the builtins.
#[derive(Debug, PartialEq, Eq, Clone, Copy)]
pub struct Help;

/// `history`: show the command history.
#[derive(Debug, PartialEq, Eq, Clone, Copy)]
pub struct History;

/// `mkdir`: create directories.
pub struct Mkdir;

/// `mv`: move or rename a file.
pub struct Mv;

/// `pwd`: print the working directory.
#[derive(Debug, PartialEq, Eq, Clone, Copy)]
pub struct Pwd;

/// `rm`: remove files and directories.
pub struct Rm;

/// `test_colors`: show the colour palette.
pub struct TestColors;

/// `touch`: create files or update their time stamps.
pub struct Touch;

impl Builtin for Cat {
    open spec fn builtin_kind(&self) -> BuiltinKind {
        BuiltinKind::Cat
    }

    fn kind(&self) -> (k: BuiltinKind) {
        BuiltinKind::Cat
    }

    fn name(&self) -> (n: &'static str) {
        builtin_name(BuiltinKind::Cat)
    }
}

impl Builtin for Cd {
    open spec fn builtin_kind(&self) -> BuiltinKind {
        BuiltinKind::Cd
    }

    fn kind(&self) -> (k: BuiltinKind) {
        BuiltinKind::Cd
    }

    fn name(&self) -> (n: &'static str) {
        builtin_name(BuiltinKind::Cd)
    }
}

impl Builtin for Fg {
    open spec fn builtin_kind(&self) -> BuiltinKind {
        BuiltinKind::Color
    }

    fn kind(&self) -> (k: BuiltinKind) {
        BuiltinKind::Color
    }

    fn name(&self) -> (n: &'static str) {
        builtin_name(BuiltinKind::Color)
    }
}

impl Builtin for Cp {
    open spec fn builtin_kind(&self) -> BuiltinKind {
        BuiltinKind::Cp
    }

    fn kind(&self) -> (k: BuiltinKind) {
        BuiltinKind::Cp
    }

    fn name(&self) -> (n: &'static str) {
        builtin_name(BuiltinKind::Cp)
    }
}

impl Builtin for Echo {
    open spec fn builtin_kind(&self) -> BuiltinKind {
        BuiltinKind::Echo
    }

    fn kind(&self) -> (k: BuiltinKind) {
        BuiltinKind::Echo
    }

    fn name(&self) -> (n: &'static str) {
        builtin_name(BuiltinKind::Echo)
    }
}

impl Builtin for Help {
    open spec fn builtin_kind(&self) -> BuiltinKind {
        BuiltinKind::Help
    }

    fn kind(&self) -> (k: BuiltinKind) {
        BuiltinKind::Help
    }

    fn name(&self) -> (n: &'static str) {
        builtin_name(BuiltinKind::Help)
    }
}

impl Builtin for History {
    open spec fn builtin_kind(&self) -> BuiltinKind {
        BuiltinKind::History
    }

    fn kind(&self) -> (k: BuiltinKind) {
        BuiltinKind::History
    }

    fn name(&self) -> (n: &'static str) {
        builtin_name(BuiltinKind::History)
    }
}

impl Builtin for Ls {
    open spec fn builtin_kind(&self) -> BuiltinKind {
        BuiltinKind::Ls
    }

    fn kind(&self) -> (k: BuiltinKind) {
        BuiltinKind::Ls
    }

    fn name(&self) -> (n: &'static str) {
        builtin_name(BuiltinKind::Ls)
    }
}

impl Builtin for Mkdir {
    open spec fn builtin_kind(&self) -> BuiltinKind {
        BuiltinKind::Mkdir
    }

    fn kind(&self) -> (k: BuiltinKind) {
        BuiltinKind::Mkdir
    }

    fn name(&self) -> (n: &'static str) {
        builtin_name(BuiltinKind::Mkdir)
    }
}

impl Builtin for Mv {
    open spec fn builtin_kind(&self) -> BuiltinKind {
        BuiltinKind::Mv
    }

    fn kind(&self) -> (k: BuiltinKind) {
        BuiltinKind::Mv
    }

    fn name(&self) -> (n: &'static str) {
        builtin_name(BuiltinKind::Mv)
    }
}

impl Builtin for Pwd {
    open spec fn builtin_kind(&self) -> BuiltinKind {
        BuiltinKind::Pwd
    }

    fn kind(&self) -> (k: BuiltinKind) {
        BuiltinKind::Pwd
    }

    fn name(&self) -> (n: &'static str) {
        builtin_name(BuiltinKind::Pwd)
    }
}

impl Builtin for Rm {
    open spec fn builtin_kind(&self) -> BuiltinKind {
        BuiltinKind::Rm
    }

    fn kind(&self) -> (k: BuiltinKind) {
        BuiltinKind::Rm
    }

    fn name(&self) -> (n: &'static str) {
        builtin_name(BuiltinKind::Rm)
    }
}

impl Builtin for TestColors {
    open spec fn builtin_kind(&self) -> BuiltinKind {
        BuiltinKind::TestColors
    }

    fn kind(&self) -> (k: BuiltinKind) {
        BuiltinKind::TestColors
    }

    fn name(&self) -> (n: &'static str) {
        builtin_name(BuiltinKind::TestColors)
    }
}

impl Builtin for Touch {
    open spec fn builtin_kind(&self) -> BuiltinKind {
        BuiltinKind::Touch
    }

    fn kind(&self) -> (k: BuiltinKind) {
        BuiltinKind::Touch
    }

    fn name(&self) -> (n: &'static str) {
        builtin_name(BuiltinKind::Touch)
    }
}

/// The arguments after the command name.
pub fn operands(argv: &Vec<String>) -> (r: Vec<String>)
    ensures
        views(r@) == crate::ls::after_name(views(argv@)),
{
    let mut r: Vec<String> = Vec::new();
    if argv.len() == 0 {
        assert(views(r@) =~= Seq::<Seq<char>>::empty());
        return r;
    }
    let mut i: usize = 1;
    while i < argv.len()
        invariant
            1 <= i <= argv.len(),
            views(r@) == views(argv@).subrange(1, i as int),
        decreases argv.len() - i,
    {
        let t = argv[i].clone();
        let ghost before = r@;
        r.push(t);
        assert(views(r@) =~= views(before).push(t@));
        assert(views(r@) =~= views(argv@).subrange(1, i + 1));
        i = i + 1;
    }
    assert(views(argv@).subrange(1, argv@.len() as int) =~= views(argv@).skip(1));
    r
}

// ---- cat ----

/// Where `cat` reads from.
#[derive(Debug, PartialEq, Eq)]
pub enum CatSource {
    Stdin,
    File(String),
}

/// `src` is what `cat` reads for the argument `a`: standard input for
/// `-`, the file named `a` otherwise.
pub open spec fn reads_for(src: CatSource, a: Seq<char>) -> bool {
    if a == "-"@ {
        src is Stdin
    } else {
        src matches CatSource::File(f) && f@ == a
    }
}

/// What `cat` reads, in order: standard input when it has no argument,
/// otherwise one source per argument.
pub fn cat_sources(argv: &Vec<String>) -> (r: Vec<CatSource>)
    ensures
        argv@.len() < 2 ==> r@.len() == 1 && r@[0] is Stdin,
        argv@.len() >= 2 ==> r@.len() == argv@.len() - 1 && forall|i: int|
            0 <= i < r@.len() ==> reads_for(#[trigger] r@[i], argv@[i + 1]@),
{
    let mut r: Vec<CatSource> = Vec::new();
    if argv.len() < 2 {
        r.push(CatSource::Stdin);
        return r;
    }
    let mut i: usize = 1;
    while i < argv.len()
        invariant
            1 <= i <= argv.len(),
            r@.len() == i - 1,
            forall|k: int| 0 <= k < r@.len() ==> reads_for(#[trigger] r@[k], argv@[k + 1]@),
        decreases argv.len() - i,
    {
        if str_eq(argv[i].as_str(), "-") {
            r.push(CatSource::Stdin);
        } else {
            r.push(CatSource::File(argv[i].clone()));
        }
        i = i + 1;
    }
    r
}

// ---- cd ----

/// The directory `cd` changes to: the home directory (`/` when unknown)
/// without an argument, the home directory followed by the rest of an
/// argument that starts with `~`, and the argument itself otherwise.
pub open spec fn cd_target_text(args: Seq<Seq<char>>, home: Option<Seq<char>>) -> Seq<char> {
    let h = match home {
        Some(h) => h,
        None => "/"@,
    };
    if args.len() <= 1 {
        h
    } else if args[1].len() > 0 && args[1][0] == '~' {
        h + args[1].drop_first()
    } else {
        args[1]
    }
}

/// Where `cd` goes: with no argument, the home directory (`/` when it is
/// not known); with an argument that starts with `~`, the home directory
/// followed by the rest of the argument, so `~` alone is the home
/// directory itself; with any other argument, that argument.
pub proof fn law_cd_target(args: Seq<Seq<char>>, home: Option<Seq<char>>)
    ensures
        ({
            let h = if home is Some { home->0 } else { seq!['/'] };
            let t = cd_target_text(args, home);
            &&& args.len() <= 1 ==> t == h
            &&& args.len() > 1 && args[1].len() > 0 && args[1][0] == '~' ==> t == h + args[1].skip(1)
            &&& args.len() > 1 && args[1] == seq!['~'] ==> t == h
            &&& args.len() > 1 && !(args[1].len() > 0 && args[1][0] == '~') ==> t == args[1]
        }),
{
    reveal_strlit("/");
    assert("/"@ =~= seq!['/']);
    if args.len() > 1 && args[1] == seq!['~'] {
        assert(args[1].drop_first() =~= Seq::<char>::empty());
        let h = if home is Some { home->0 } else { seq!['/'] };
        assert(h + Seq::<char>::empty() =~= h);
    }
}

/// After `cd` has entered `path`: the working directory becomes the
/// canonical form of `path` when it could be found, else `path` as given.
pub fn enter_directory(sh: &mut ShellState, path: &str, canonical: Option<String>)
    ensures
        final(sh).cwd@ == match canonical {
            Some(c) => c@,
            None => path@,
        },
        final(sh).running == old(sh).running,
        final(sh).prompt_color == old(sh).prompt_color,
        final(sh).history == old(sh).history,
{
    sh.cwd = match canonical {
        Some(c) => c,
        None => String::from_str(path),
    };
}

/// The directory `cd` changes to, given the home directory if known.
pub fn cd_target(argv: &Vec<String>, home: Option<&str>) -> (r: String)
    ensures
        r@ == cd_target_text(views(argv@), match home {
            Some(h) => Some(h@),
            None => None,
        }),
{
    let h: &str = match home {
        Some(h) => h,
        None => "/",
    };
    if argv.len() <= 1 {
        return String::from_str(h);
    }
    let a = chars_of(argv[1].as_str());
    if a.len() > 0 && a[0] == '~' {
        let rest = argv[1].as_str().substring_char(1, a.len());
        assert(rest@ =~= argv@[1]@.drop_first());
        let mut t = String::from_str(h);
        t.append(rest);
        t
    } else {
        argv[1].clone()
    }
}

// ---- cp and mv ----

/// The source and destination of `cp`: exactly two arguments, else the usage error.
pub fn cp_operands(argv: &Vec<String>) -> (r: Result<(String, String), ShellError>)
    ensures
        argv@.len() == 3 ==> (r matches Ok((s, d)) && s@ == argv@[1]@ && d@ == argv@[2]@),
        argv@.len() != 3 ==> (r matches Err(ShellError::Usage(u)) && u@ == "usage: cp SRC DST"@),
{
    if argv.len() != 3 {
        return Err(ShellError::Usage("usage: cp SRC DST"));
    }
    Ok((argv[1].clone(), argv[2].clone()))
}

/// `cp` copies regular files only.
pub fn cp_require_file(src_is_file: bool) -> (r: Result<(), ShellError>)
    ensures
        src_is_file ==> r is Ok,
        !src_is_file ==> (r matches Err(ShellError::Usage(u)) && u@
            == "cp currently supports file->file or file->dir"@),
{
    if !src_is_file {
        return Err(ShellError::Usage("cp currently supports file->file or file->dir"));
    }
    Ok(())
}

/// The source and destination of `mv`: exactly two arguments, else the usage error.
pub fn mv_operands(argv: &Vec<String>) -> (r: Result<(String, String), ShellError>)
    ensures
        argv@.len() == 3 ==> (r matches Ok((s, d)) && s@ == argv@[1]@ && d@ == argv@[2]@),
        argv@.len() != 3 ==> (r matches Err(ShellError::Usage(u)) && u@ == "usage: mv SRC DST"@),
{
    if argv.len() != 3 {
        return Err(ShellError::Usage("usage: mv SRC DST"));
    }
    Ok((argv[1].clone(), argv[2].clone()))
}

/// `mv` fails with `NotFound` when its source does not exist.
pub fn mv_require_source(src: &str, present: bool) -> (r: Result<(), ShellError>)
    ensures
        present ==> r is Ok,
        !present ==> (r matches Err(ShellError::NotFound(n)) && n@ == src@),
{
    if !present {
        return Err(ShellError::NotFound(String::from_str(src)));
    }
    Ok(())
}

/// What `mv` does when renaming failed.
#[derive(Debug)]
pub enum MvRecovery {
    /// Copy the file, then remove the source.
    CopyThenRemove,
    /// Give up with this error.
    Refuse(ShellError),
    /// Report the error of the rename.
    ReportRenameError,
}

/// After a failed rename: across file systems a regular file is copied and
/// its source removed, anything else is refused; any other failure is
/// reported as it is.
pub fn mv_recovery(cross_fs: bool, src_is_file: bool) -> (r: MvRecovery)
    ensures
        cross_fs && src_is_file ==> r is CopyThenRemove,
        cross_fs && !src_is_file ==> (r matches MvRecovery::Refuse(ShellError::Usage(u)) && u@
            == "mv across filesystems currently supports files only"@),
        !cross_fs ==> r is ReportRenameError,
{
    if cross_fs {
        if src_is_file {
            MvRecovery::CopyThenRemove
        } else {
            MvRecovery::Refuse(ShellError::Usage("mv across filesystems currently supports files only"))
        }
    } else {
        MvRecovery::ReportRenameError
    }
}

/// A failed rename's OS error code `code` says that source and destination
/// lie on different file systems; `cross_device` is the code that means
/// so on this platform, if it has one.
pub fn is_cross_fs_code(code: Option<i32>, cross_device: Option<i32>) -> (r: bool)
    ensures
        r == (code is Some && code == cross_device),
{
    match (code, cross_device) {
        (Some(c), Some(x)) => c == x,
        _ => false,
    }
}

// ---- echo ----

/// The line `echo` prints: its arguments separated by single spaces.
pub fn echo_line(argv: &Vec<String>) -> (r: String)
    ensures
        r@ == joined(crate::ls::after_name(views(argv@)), " "@),
{
    let ghost rest = crate::ls::after_name(views(argv@));
    let mut out = String::new();
    if argv.len() <= 1 {
        assert(rest.len() == 0);
        return out;
    }
    let mut i: usize = 1;
    assert(rest.take(0) =~= Seq::<Seq<char>>::empty());
    while i < argv.len()
        invariant
            1 <= i <= argv.len(),
            rest == views(argv@).skip(1),
            out@ == joined(rest.take(i - 1), " "@),
        decreases argv.len() - i,
    {
        if i > 1 {
            out.append(" ");
        }
        out.append(argv[i].as_str());
        assert(rest.take(i as int).drop_last() =~= rest.take(i - 1));
        assert(rest.take(i as int).last() == argv@[i as int]@);
        i = i + 1;
    }
    assert(rest.take(i - 1) =~= rest);
    out
}

// ---- rm ----

/// Why `rm` refused to start.
#[derive(Debug, PartialEq, Eq, Clone, Copy)]
pub enum RmUsage {
    /// No argument at all.
    MissingOperand,
    /// Only `-r`.
    MissingOperandAfterFlag,
}

/// What `rm` was asked to remove, and whether recursively.
#[derive(Debug)]
pub struct RmArgs {
    pub recursive: bool,
    pub targets: Vec<String>,
}

/// The arguments other than `-r`, in order.
pub open spec fn rm_targets(args: Seq<Seq<char>>) -> Seq<Seq<char>>
    decreases args.len(),
{
    if args.len() == 0 {
        Seq::empty()
    } else if args.last() == "-r"@ {
        rm_targets(args.drop_last())
    } else {
        rm_targets(args.drop_last()).push(args.last())
    }
}

/// The targets of `rm` are its arguments without the `-r` ones, in their
/// order.
pub proof fn law_rm_targets(args: Seq<Seq<char>>)
    ensures
        rm_targets(args) == args.filter(|a: Seq<char>| a != "-r"@),
    decreases args.len(),
{
    reveal(Seq::filter);
    if args.len() > 0 {
        law_rm_targets(args.drop_last());
    }
}

/// Reads the arguments of `rm`: `-r` anywhere asks for recursive removal;
/// every other argument is a target.
pub fn rm_args(argv: &Vec<String>) -> (r: Result<RmArgs, RmUsage>)
    ensures
        argv@.len() < 2 ==> r == Err::<RmArgs, RmUsage>(RmUsage::MissingOperand),
        argv@.len() >= 2 && rm_targets(views(argv@).skip(1)).len() == 0 ==> r == Err::<RmArgs, RmUsage>(
            RmUsage::MissingOperandAfterFlag,
        ),
        argv@.len() >= 2 && rm_targets(views(argv@).skip(1)).len() > 0 ==> r is Ok,
        r matches Ok(a) ==> {
            &&& argv@.len() >= 2
            &&& a.recursive == exists|i: int| 1 <= i < argv@.len() && #[trigger] argv@[i]@ == "-r"@
            &&& views(a.targets@) == rm_targets(views(argv@).skip(1))
            &&& a.targets@.len() > 0
        },
{
    if argv.len() < 2 {
        return Err(RmUsage::MissingOperand);
    }
    let ghost rest = views(argv@).skip(1);
    let mut recursive = false;
    let mut targets: Vec<String> = Vec::new();
    let mut i: usize = 1;
    assert(rest.take(0) =~= Seq::<Seq<char>>::empty());
    assert(views(targets@) =~= Seq::<Seq<char>>::empty());
    while i < argv.len()
        invariant
            1 <= i <= argv.len(),
            rest == views(argv@).skip(1),
            recursive == exists|k: int| 1 <= k < i && #[trigger] argv@[k]@ == "-r"@,
            views(targets@) == rm_targets(rest.take(i - 1)),
        decreases argv.len() - i,
    {
        assert(rest.take(i as int).drop_last() =~= rest.take(i - 1));
        assert(rest.take(i as int).last() == argv@[i as int]@);
        if str_eq(argv[i].as_str(), "-r") {
            recursive = true;
        } else {
            let t = argv[i].clone();
            let ghost before = targets@;
            targets.push(t);
            assert(views(targets@) =~= views(before).push(t@));
        }
        i = i + 1;
    }
    assert(rest.take(i - 1) =~= rest);
    if targets.len() == 0 {
        return Err(RmUsage::MissingOperandAfterFlag);
    }
    Ok(RmArgs { recursive, targets })
}

/// What `rm` does with one target.
#[derive(Debug, PartialEq, Eq, Clone, Copy)]
pub enum RmAction {
    /// Remove the directory and everything in it.
    RemoveTree,
    /// Refuse: a directory without `-r`.
    RefuseDirectory,
    /// Remove the file.
    RemoveFile,
}

/// Directories are removed with their contents under `-r` and refused
/// otherwise; anything else is removed as a file.
pub fn rm_action(is_dir: bool, recursive: bool) -> (r: RmAction)
    ensures
        r == if is_dir {
            if recursive { RmAction::RemoveTree } else { RmAction::RefuseDirectory }
        } else {
            RmAction::RemoveFile
        },
{
    if is_dir {
        if recursive {
            RmAction::RemoveTree
        } else {
            RmAction::RefuseDirectory
        }
    } else {
        RmAction::RemoveFile
    }
}

// ---- touch ----

/// What `touch` does with one file.
#[derive(Debug, PartialEq, Eq, Clone, Copy)]
pub enum TouchAction {
    /// Create the missing file.
    Create,
    /// Update the existing file's modification time; its contents stay as
    /// they are.
    Refresh,
}

/// Missing files are created; existing ones get a new modification time.
pub fn touch_action(present: bool) -> (r: TouchAction)
    ensures
        r == if present { TouchAction::Refresh } else { TouchAction::Create },
{
    if present {
        TouchAction::Refresh
    } else {
        TouchAction::Create
    }
}

// ---- help ----

/// The views of a vector of strings.
pub open spec fn line_views(v: Seq<String>) -> Seq<Seq<char>> {
    v.map_values(|s: String| s@)
}

/// A row of the help table: the command in green, then its description.
pub open spec fn help_row(cmd: Seq<char>, desc: Seq<char>) -> Seq<char> {
    "  "@ + painted(cmd, Fg::Green) + "  "@ + desc
}

/// The text of `help`, line by line.
pub open spec fn help_text() -> Seq<Seq<char>> {
    seq![
        painted("0-shell Built-in Commands:"@, Fg::Cyan),
        Seq::<char>::empty(),
        help_row("cat"@, "Display file contents"@),
        help_row("cd"@, "Change directory"@),
        help_row("color"@, "Change prompt color (red, green, blue, cyan, yellow, magenta)"@),
        help_row("cp"@, "Copy files or directories"@),
        help_row("echo"@, "Print text to stdout"@),
        help_row("help"@, "Show this help message"@),
        help_row("history"@, "Show command history"@),
        help_row("ls"@, "List directory contents"@),
        help_row("mkdir"@, "Create directories"@),
        help_row("mv"@, "Move/rename files or directories"@),
        help_row("rm"@, "Remove files or directories"@),
        help_row("touch"@, "Create empty files or update timestamps"@),
        help_row("clear"@, "Clear the terminal screen"@),
        help_row("exit"@, "Exit the shell"@),
        Seq::<char>::empty(),
        painted("Bonus Features:"@, Fg::Yellow),
        "  • Colored prompt with current directory"@,
        "  • Basic file operations"@,
        "  • Quote and escape character support"@,
        "  • Command history with arrow keys"@,
        "  • Ctrl+C to exit shell"@,
    ]
}

/// `help` prints a title, a blank line, then one row per builtin in this
/// order, each row two spaces, the command in green, two spaces and what
/// the command does, then a blank line and the bonus features.
pub proof fn law_help_rows()
    ensures
        help_text().len() == 23,
        help_text()[0] == painted("0-shell Built-in Commands:"@, Fg::Cyan),
        help_text()[1] == Seq::<char>::empty(),
        help_text()[2] == "  "@ + painted("cat"@, Fg::Green) + "  "@ + "Display file contents"@,
        help_text()[3] == "  "@ + painted("cd"@, Fg::Green) + "  "@ + "Change directory"@,
        help_text()[4] == "  "@ + painted("color"@, Fg::Green) + "  "@
            + "Change prompt color (red, green, blue, cyan, yellow, magenta)"@,
        help_text()[5] == "  "@ + painted("cp"@, Fg::Green) + "  "@ + "Copy files or directories"@,
        help_text()[6] == "  "@ + painted("echo"@, Fg::Green) + "  "@ + "Print text to stdout"@,
        help_text()[7] == "  "@ + painted("help"@, Fg::Green) + "  "@ + "Show this help message"@,
        help_text()[8] == "  "@ + painted("history"@, Fg::Green) + "  "@ + "Show command history"@,
        help_text()[9] == "  "@ + painted("ls"@, Fg::Green) + "  "@ + "List directory contents"@,
        help_text()[10] == "  "@ + painted("mkdir"@, Fg::Green) + "  "@ + "Create directories"@,
        help_text()[11] == "  "@ + painted("mv"@, Fg::Green) + "  "@ + "Move/rename files or directories"@,
        help_text()[12] == "  "@ + painted("rm"@, Fg::Green) + "  "@ + "Remove files or directories"@,
        help_text()[13] == "  "@ + painted("touch"@, Fg::Green) + "  "@ + "Create empty files or update timestamps"@,
        help_text()[14] == "  "@ + painted("clear"@, Fg::Green) + "  "@ + "Clear the terminal screen"@,
        help_text()[15] == "  "@ + painted("exit"@, Fg::Green) + "  "@ + "Exit the shell"@,
        help_text()[16] == Seq::<char>::empty(),
        help_text()[17] == painted("Bonus Features:"@, Fg::Yellow),
        help_text()[18] == "  • Colored prompt with current directory"@,
        help_text()[19] == "  • Basic file operations"@,
        help_text()[20] == "  • Quote and escape character support"@,
        help_text()[21] == "  • Command history with arrow keys"@,
        help_text()[22] == "  • Ctrl+C to exit shell"@,
{
}

fn help_row_line(cmd: &str, desc: &str) -> (r: String)
    ensures
        r@ == help_row(cmd@, desc@),
{
    let mut line = String::from_str("  ");
    let coloured = paint(cmd, Fg::Green);
    line.append(coloured.as_str());
    line.append("  ");
    line.append(desc);
    line
}

/// The lines `help` prints.
pub fn help_lines() -> (r: Vec<String>)
    ensures
        line_views(r@) == help_text(),
{
    let mut lines: Vec<String> = Vec::new();
    lines.push(paint("0-shell Built-in Commands:", Fg::Cyan));
    lines.push(String::new());
    lines.push(help_row_line("cat", "Display file contents"));
    lines.push(help_row_line("cd", "Change directory"));
    lines.push(help_row_line("color", "Change prompt color (red, green, blue, cyan, yellow, magenta)"));
    lines.push(help_row_line("cp", "Copy files or directories"));
    lines.push(help_row_line("echo", "Print text to stdout"));
    lines.push(help_row_line("help", "Show this help message"));
    lines.push(help_row_line("history", "Show command history"));
    lines.push(help_row_line("ls", "List directory contents"));
    lines.push(help_row_line("mkdir", "Create directories"));
    lines.push(help_row_line("mv", "Move/rename files or directories"));
    lines.push(help_row_line("rm", "Remove files or directories"));
    lines.push(help_row_line("touch", "Create empty files or update timestamps"));
    lines.push(help_row_line("clear", "Clear the terminal screen"));
    lines.push(help_row_line("exit", "Exit the shell"));
    lines.push(String::new());
    lines.push(paint("Bonus Features:", Fg::Yellow));
    lines.push(String::from_str("  • Colored prompt with current directory"));
    lines.push(String::from_str("  • Basic file operations"));
    lines.push(String::from_str("  • Quote and escape character support"));
    lines.push(String::from_str("  • Command history with arrow keys"));
    lines.push(String::from_str("  • Ctrl+C to exit shell"));
    assert(line_views(lines@) =~= help_text());
    lines
}

// ---- test_colors ----

/// The text of `test_colors`, line by line.
pub open spec fn test_colors_text() -> Seq<Seq<char>> {
    seq![
        "=== Color System Test ==="@,
        Seq::<char>::empty(),
        painted("■ Red text"@, Fg::Red),
        painted("■ Green text"@, Fg::Green),
        painted("■ Blue text"@, Fg::Blue),
        painted("■ Yellow text"@, Fg::Yellow),
        painted("■ Magenta text"@, Fg::Magenta),
        painted("■ Cyan text"@, Fg::Cyan),
        painted("■ Default text"@, Fg::Default),
        Seq::<char>::empty(),
        painted("Error message in red"@, Fg::Red),
        Seq::<char>::empty(),
        "=== File Type Colors Test ==="@,
        "📁 "@ + painted("directory"@, Fg::Blue),
        "📄 normal_file.txt"@,
        "🔧 "@ + painted("executable_file"@, Fg::Green),
        Seq::<char>::empty(),
        painted("✅ If you see colors, everything works perfectly!"@, Fg::Green),
        painted("❌ If you see weird symbols, your terminal doesn't support colors"@, Fg::Red),
    ]
}

fn prefixed(prefix: &str, rest: String) -> (r: String)
    ensures
        r@ == prefix@ + rest@,
{
    let mut line = String::from_str(prefix);
    line.append(rest.as_str());
    line
}

/// The lines `test_colors` prints.
pub fn test_colors_lines() -> (r: Vec<String>)
    ensures
        line_views(r@) == test_colors_text(),
{
    let mut lines: Vec<String> = Vec::new();
    lines.push(String::from_str("=== Color System Test ==="));
    lines.push(String::new());
    lines.push(paint("■ Red text", Fg::Red));
    lines.push(paint("■ Green text", Fg::Green));
    lines.push(paint("■ Blue text", Fg::Blue));
    lines.push(paint("■ Yellow text", Fg::Yellow));
    lines.push(paint("■ Magenta text", Fg::Magenta));
    lines.push(paint("■ Cyan text", Fg::Cyan));
    lines.push(paint("■ Default text", Fg::Default));
    lines.push(String::new());
    lines.push(paint("Error message in red", Fg::Red));
    lines.push(String::new());
    lines.push(String::from_str("=== File Type Colors Test ==="));
    lines.push(prefixed("📁 ", paint("directory", Fg::Blue)));
    lines.push(String::from_str("📄 normal_file.txt"));
    lines.push(prefixed("🔧 ", paint("executable_file", Fg::Green)));
    lines.push(String::new());
    lines.push(paint("✅ If you see colors, everything works perfectly!", Fg::Green));
    lines.push(paint("❌ If you see weird symbols, your terminal doesn't support colors", Fg::Red));
    assert(line_views(lines@) =~= test_colors_text());
    lines
}

// ---- history ----

/// A row of the history listing: the 1-based position, right-aligned in
/// three columns and in yellow, then the line.
pub open spec fn history_row(position: nat, line: Seq<char>) -> Seq<char> {
    "  "@ + painted(pad_left(dec_digits(position), 3, ' '), Fg::Yellow) + "  "@ + line
}

/// The text of `history` for these lines, line by line.
pub open spec fn history_text(lines: Seq<Seq<char>>) -> Seq<Seq<char>> {
    let rows = Seq::new(lines.len(), |i: int| history_row((i + 1) as nat, lines[i]));
    let head = seq![painted("Command History:"@, Fg::Cyan), Seq::<char>::empty()];
    if lines.len() == 0 {
        head + rows + seq!["  "@ + painted("No commands in history"@, Fg::Red)]
    } else {
        head + rows
    }
}

/// `history` prints a title, a blank line, then the lines oldest first,
/// the line at index `i` numbered `i + 1` (counting from one); with no
/// lines it says so instead.
pub proof fn law_history_numbering(lines: Seq<Seq<char>>)
    ensures
        history_text(lines).len() == lines.len() + if lines.len() == 0 { 3int } else { 2 },
        history_text(lines)[0] == painted("Command History:"@, Fg::Cyan),
        history_text(lines)[1] == Seq::<char>::empty(),
        forall|i: int| 0 <= i < lines.len() ==> #[trigger] history_text(lines)[i + 2] == "  "@ + painted(
            pad_left(dec_digits((i + 1) as nat), 3, ' '),
            Fg::Yellow,
        ) + "  "@ + lines[i],
        lines.len() == 0 ==> history_text(lines)[2] == "  "@ + painted("No commands in history"@, Fg::Red),
{
}

/// The lines `history` prints for the lines a history holds.
pub fn history_report(h: &MemHistory) -> (r: Vec<String>)
    ensures
        line_views(r@) == history_text(history_lines_of(*h)),
{
    let entries = history_snapshot(h);
    let ghost ls = history_lines_of(*h);
    let mut out: Vec<String> = Vec::new();
    out.push(paint("Command History:", Fg::Cyan));
    out.push(String::new());
    let ghost head = seq![painted("Command History:"@, Fg::Cyan), Seq::<char>::empty()];
    assert(line_views(out@) =~= head);
    let mut i: usize = 0;
    while i < entries.len()
        invariant
            i <= entries.len(),
            entries@.map_values(|s: String| s@) == ls,
            line_views(out@) == head + Seq::new(i as nat, |k: int| history_row((k + 1) as nat, ls[k])),
        decreases entries.len() - i,
    {
        assert(entries@[i as int]@ == ls[i as int]);
        let number = string_from_chars(right_aligned((i as u64) + 1, 3));
        let mut line = String::from_str("  ");
        let coloured = paint(number.as_str(), Fg::Yellow);
        line.append(coloured.as_str());
        line.append("  ");
        line.append(entries[i].as_str());
        let ghost before = out@;
        out.push(line);
        assert(line_views(out@) =~= line_views(before).push(line@));
        assert(line@ == history_row((i + 1) as nat, ls[i as int]));
        assert(head + Seq::new((i + 1) as nat, |k: int| history_row((k + 1) as nat, ls[k])) =~= (head + Seq::new(
            i as nat,
            |k: int| history_row((k + 1) as nat, ls[k]),
        )).push(line@));
        i = i + 1;
    }
    assert(ls.len() == entries@.len());
    if entries.len() == 0 {
        let mut line = String::from_str("  ");
        let coloured = paint("No commands in history", Fg::Red);
        line.append(coloured.as_str());
        let ghost before = out@;
        out.push(line);
        assert(line_views(out@) =~= line_views(before).push(line@));
        assert(line_views(out@) =~= history_text(ls));
    } else {
        assert(line_views(out@) =~= history_text(ls));
    }
    out
}

} // verus!
