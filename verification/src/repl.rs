//! Turning an input line into commands: quote-aware word splitting, and the
//! decision the read-eval loop takes for each line it reads.

use vstd::prelude::*;
use crate::chaining::{chain_commands, chained, parse_pipes, piped};
use crate::color::{color_for_args, fg_named, Fg};
use crate::reg::{BuiltinKind, BuiltinRegistry};
use crate::path::{abbreviate_home, abbreviated};
use crate::text::{chars_of, is_whitespace, is_ws, lowercase_of, non_empty, str_eq, str_views, string_from_chars, trim, trim_seq};
use crate::recall::{history_capacity, history_lines_of, history_skips_repeats, history_skips_spaced, new_history};
use rustyline::history::MemHistory;
use vstd::string::StringExecFns;
use vstd::string::StrSliceExecFns;

verus! {

/// A command line split into words; `argv[0]` names the command.
#[derive(Debug)]
pub struct Command {
    pub argv: Vec<String>,
}

/// The state of the word splitter: finished words, the word being built,
/// and whether a single or a double quote is open.
pub type ScanState = (Seq<Seq<char>>, Seq<char>, bool, bool);

/// The splitter's state after reading `s` from position `i` on, starting in `st`.
///
/// A single quote toggles single quoting unless a double quote is open, and a
/// double quote toggles double quoting unless a single quote is open; neither
/// becomes part of a word. Outside single quotes a backslash takes the next
/// character literally (a trailing backslash is dropped). Whitespace outside
/// quotes ends the current word if it is non-empty. Everything else is added
/// to the current word.
pub open spec fn scan_from(s: Seq<char>, i: int, st: ScanState) -> ScanState
    decreases s.len() - i,
{
    if i >= s.len() || i < 0 {
        st
    } else {
        let c = s[i];
        let (args, cur, single, double) = st;
        if c == '\'' && !double {
            scan_from(s, i + 1, (args, cur, !single, double))
        } else if c == '"' && !single {
            scan_from(s, i + 1, (args, cur, single, !double))
        } else if c == '\\' && !single {
            if i + 1 < s.len() {
                scan_from(s, i + 2, (args, cur.push(s[i + 1]), single, double))
            } else {
                scan_from(s, i + 1, st)
            }
        } else if is_ws(c) && !single && !double {
            if cur.len() > 0 {
                scan_from(s, i + 1, (args.push(cur), Seq::empty(), single, double))
            } else {
                scan_from(s, i + 1, st)
            }
        } else {
            scan_from(s, i + 1, (args, cur.push(c), single, double))
        }
    }
}

/// The words of a command line.
pub open spec fn words_of(line: Seq<char>) -> Seq<Seq<char>> {
    let st = scan_from(line, 0, (Seq::empty(), Seq::empty(), false, false));
    if st.1.len() > 0 {
        st.0.push(st.1)
    } else {
        st.0
    }
}

/// The views of a vector of strings.
pub open spec fn string_views(v: Seq<String>) -> Seq<Seq<char>> {
    v.map_values(|s: String| s@)
}

proof fn lemma_string_views_push(v: Seq<String>, s: String)
    ensures
        string_views(v.push(s)) == string_views(v).push(s@),
{
    assert(string_views(v.push(s)) =~= string_views(v).push(s@));
}

/// Splits a command line into words, honouring quotes and backslashes (see
/// `scan_from`). `None` when the line holds no word. No word is empty.
pub fn parts(line: &str) -> (r: Option<Command>)
    ensures
        match r {
            None => words_of(line@).len() == 0,
            Some(c) => string_views(c.argv@) == words_of(line@) && c.argv@.len() > 0,
        },
        forall|i: int| 0 <= i < words_of(line@).len() ==> (#[trigger] words_of(line@)[i]).len() > 0,
{
    let s = chars_of(line);
    let mut args: Vec<String> = Vec::new();
    let mut cur: Vec<char> = Vec::new();
    let mut in_single = false;
    let mut in_double = false;
    let mut i: usize = 0;
    let ghost init: ScanState = (Seq::empty(), Seq::empty(), false, false);
    assert(string_views(args@) =~= Seq::<Seq<char>>::empty());
    while i < s.len()
        invariant
            s@ == line@,
            i <= s.len(),
            scan_from(s@, 0, init) == scan_from(s@, i as int, (string_views(args@), cur@, in_single, in_double)),
            forall|k: int| 0 <= k < args@.len() ==> (#[trigger] args@[k])@.len() > 0,
        decreases s.len() - i,
    {
        let c = s[i];
        let ghost st: ScanState = (string_views(args@), cur@, in_single, in_double);
        if c == '\'' && !in_double {
            in_single = !in_single;
            i = i + 1;
        } else if c == '"' && !in_single {
            in_double = !in_double;
            i = i + 1;
        } else if c == '\\' && !in_single {
            if i + 1 < s.len() {
                cur.push(s[i + 1]);
                i = i + 2;
            } else {
                i = i + 1;
            }
        } else if is_whitespace(c) && !in_single && !in_double {
            if cur.len() > 0 {
                let word = string_from_chars(cur);
                let ghost before = args@;
                args.push(word);
                proof {
                    lemma_string_views_push(before, word);
                }
                cur = Vec::new();
                assert(cur@ =~= Seq::<char>::empty());
            }
            i = i + 1;
        } else {
            cur.push(c);
            i = i + 1;
        }
    }
    let ghost fin: ScanState = (string_views(args@), cur@, in_single, in_double);
    assert(scan_from(s@, 0, init) == fin);
    if cur.len() > 0 {
        let word = string_from_chars(cur);
        let ghost before = args@;
        args.push(word);
        proof {
            lemma_string_views_push(before, word);
        }
    }
    proof {
        assert forall|k: int| 0 <= k < words_of(line@).len() implies (#[trigger] words_of(line@)[k]).len() > 0 by {
            assert(words_of(line@) == string_views(args@));
            assert(string_views(args@)[k] == args@[k]@);
        }
    }
    if args.len() == 0 {
        None
    } else {
        Some(Command { argv: args })
    }
}

/// The runs of `s` between whitespace characters, empty runs included.
pub open spec fn split_ws(s: Seq<char>) -> Seq<Seq<char>>
    decreases s.len(),
{
    if s.len() == 0 {
        seq![Seq::empty()]
    } else {
        let p = split_ws(s.drop_last());
        if is_ws(s.last()) {
            p.push(Seq::empty())
        } else {
            p.update(p.len() - 1, p.last().push(s.last()))
        }
    }
}

/// `s` holds no quote and no backslash.
pub open spec fn is_plain(s: Seq<char>) -> bool {
    forall|i: int| #![trigger s[i]] 0 <= i < s.len() ==> s[i] != '\'' && s[i] != '"' && s[i] != '\\'
}

proof fn lemma_split_ws_nonempty(s: Seq<char>)
    ensures
        split_ws(s).len() >= 1,
    decreases s.len(),
{
    if s.len() > 0 {
        lemma_split_ws_nonempty(s.drop_last());
    }
}

spec fn plain_state(s: Seq<char>, i: int) -> ScanState {
    let p = split_ws(s.take(i));
    (non_empty(p.drop_last()), p.last(), false, false)
}

proof fn lemma_plain_scan(s: Seq<char>, i: int)
    requires
        is_plain(s),
        0 <= i <= s.len(),
    ensures
        scan_from(s, 0, (Seq::empty(), Seq::empty(), false, false)) == scan_from(s, i, plain_state(s, i)),
    decreases i,
{
    if i == 0 {
        assert(s.take(0) =~= Seq::<char>::empty());
        reveal(Seq::filter);
        assert(plain_state(s, 0) =~= (Seq::<Seq<char>>::empty(), Seq::<char>::empty(), false, false));
    } else {
        lemma_plain_scan(s, i - 1);
        let j = i - 1;
        let p = split_ws(s.take(j));
        lemma_split_ws_nonempty(s.take(j));
        assert(s.take(i).drop_last() =~= s.take(j));
        assert(s.take(i).last() == s[j]);
        let c = s[j];
        assert(c != '\'' && c != '"' && c != '\\');
        if is_ws(c) {
            assert(split_ws(s.take(i)) == p.push(Seq::empty()));
            assert(split_ws(s.take(i)).drop_last() =~= p);
            assert(p =~= p.drop_last().push(p.last()));
            crate::text::lemma_non_empty_push(p.drop_last(), p.last());
            if p.last().len() > 0 {
                assert(scan_from(s, j, plain_state(s, j)) == scan_from(s, i, plain_state(s, i)));
            } else {
                assert(scan_from(s, j, plain_state(s, j)) == scan_from(s, i, plain_state(s, j)));
                assert(plain_state(s, j) == plain_state(s, i));
            }
        } else {
            assert(split_ws(s.take(i)) == p.update(p.len() - 1, p.last().push(c)));
            assert(split_ws(s.take(i)).drop_last() =~= p.drop_last());
            assert(scan_from(s, j, plain_state(s, j)) == scan_from(s, i, plain_state(s, i)));
        }
    }
}

/// A line with no quotes and no backslashes splits into its
/// whitespace-separated words.
pub proof fn lemma_plain_line_words(s: Seq<char>)
    requires
        is_plain(s),
    ensures
        words_of(s) == non_empty(split_ws(s)),
{
    lemma_plain_scan(s, s.len() as int);
    assert(s.take(s.len() as int) =~= s);
    let p = split_ws(s);
    lemma_split_ws_nonempty(s);
    assert(p =~= p.drop_last().push(p.last()));
    crate::text::lemma_non_empty_push(p.drop_last(), p.last());
}

/// Inside quotes, a run of characters that neither closes the quote nor
/// (inside double quotes) starts an escape is added to the current word
/// as it stands.
proof fn lemma_scan_quoted_run(l: Seq<char>, i: int, j: int, st: ScanState)
    requires
        0 <= i <= j <= l.len(),
        st.2 || st.3,
        forall|k: int| i <= k < j ==> (st.2 ==> l[k] != '\'') && (!st.2 ==> l[k] != '"' && l[k] != '\\'),
    ensures
        scan_from(l, i, st) == scan_from(l, j, (st.0, st.1 + l.subrange(i, j), st.2, st.3)),
    decreases j - i,
{
    if i == j {
        assert(st.1 + l.subrange(i, j) =~= st.1);
    } else {
        let c = l[i];
        let next: ScanState = (st.0, st.1.push(c), st.2, st.3);
        assert(scan_from(l, i, st) == scan_from(l, i + 1, next));
        lemma_scan_quoted_run(l, i + 1, j, next);
        assert(next.1 + l.subrange(i + 1, j) =~= st.1 + l.subrange(i, j));
    }
}

/// Single quotes keep everything between them as one word, whitespace,
/// backslashes and double quotes included; empty quotes make no word.
pub proof fn law_single_quoted_word(s: Seq<char>)
    requires
        forall|k: int| 0 <= k < s.len() ==> s[k] != '\'',
    ensures
        words_of(seq!['\''] + s + seq!['\'']) == if s.len() > 0 { seq![s] } else { Seq::<Seq<char>>::empty() },
{
    let l = seq!['\''] + s + seq!['\''];
    let n = s.len() as int;
    let e = Seq::<Seq<char>>::empty();
    let init: ScanState = (e, Seq::<char>::empty(), false, false);
    assert(l[0] == '\'');
    assert(scan_from(l, 0, init) == scan_from(l, 1, (e, Seq::<char>::empty(), true, false)));
    lemma_scan_quoted_run(l, 1, n + 1, (e, Seq::<char>::empty(), true, false));
    assert(Seq::<char>::empty() + l.subrange(1, n + 1) =~= s);
    assert(l[n + 1] == '\'');
    assert(scan_from(l, n + 1, (e, s, true, false)) == scan_from(l, n + 2, (e, s, false, false)));
    assert(e.push(s) =~= seq![s]);
}

/// Double quotes keep what lies between them as one word when it holds no
/// double quote and no backslash; whitespace and single quotes included.
pub proof fn law_double_quoted_word(s: Seq<char>)
    requires
        forall|k: int| 0 <= k < s.len() ==> s[k] != '"' && s[k] != '\\',
    ensures
        words_of(seq!['"'] + s + seq!['"']) == if s.len() > 0 { seq![s] } else { Seq::<Seq<char>>::empty() },
{
    let l = seq!['"'] + s + seq!['"'];
    let n = s.len() as int;
    let e = Seq::<Seq<char>>::empty();
    let init: ScanState = (e, Seq::<char>::empty(), false, false);
    assert(l[0] == '"');
    assert(scan_from(l, 0, init) == scan_from(l, 1, (e, Seq::<char>::empty(), false, true)));
    lemma_scan_quoted_run(l, 1, n + 1, (e, Seq::<char>::empty(), false, true));
    assert(Seq::<char>::empty() + l.subrange(1, n + 1) =~= s);
    assert(l[n + 1] == '"');
    assert(scan_from(l, n + 1, (e, s, false, true)) == scan_from(l, n + 2, (e, s, false, false)));
    assert(e.push(s) =~= seq![s]);
}

/// A backslash outside quotes takes the next character literally, even a
/// space or a quote: `\c` is the one-character word `c`.
pub proof fn law_backslash_escape(c: char)
    ensures
        words_of(seq!['\\', c]) == seq![seq![c]],
{
    let l = seq!['\\', c];
    let e = Seq::<Seq<char>>::empty();
    let init: ScanState = (e, Seq::<char>::empty(), false, false);
    assert(scan_from(l, 0, init) == scan_from(l, 2, (e, Seq::<char>::empty().push(c), false, false)));
    assert(Seq::<char>::empty().push(c) =~= seq![c]);
    assert(e.push(seq![c]) =~= seq![seq![c]]);
}

/// The state of the shell between commands.
pub struct ShellState {
    /// The working directory.
    pub cwd: String,
    /// Whether the read-eval loop goes on.
    pub running: bool,
    /// The colour of the prompt.
    pub prompt_color: Fg,
    /// The lines the `history` builtin shows.
    pub history: MemHistory,
}

impl ShellState {
    /// A running shell in `cwd`, with the default prompt colour and an
    /// empty history (rustyline's default settings).
    pub fn new(cwd: String) -> (sh: ShellState)
        ensures
            sh.cwd == cwd,
            sh.running,
            sh.prompt_color == Fg::Default,
            history_lines_of(sh.history) == Seq::<Seq<char>>::empty(),
            history_capacity(sh.history) == 100,
            history_skips_repeats(sh.history),
            !history_skips_spaced(sh.history),
    {
        ShellState { cwd, running: true, prompt_color: Fg::Default, history: new_history() }
    }
}

/// The `color` builtin: sets the prompt colour from its arguments (see
/// `color_for_args`) and leaves the rest of the state as it was.
pub fn set_prompt_color(sh: &mut ShellState, args: &Vec<String>) -> (c: Fg)
    ensures
        c == if args@.len() > 1 { fg_named(lowercase_of(args@[1]@)) } else { Fg::Default },
        final(sh).prompt_color == c,
        final(sh).cwd == old(sh).cwd,
        final(sh).running == old(sh).running,
        final(sh).history == old(sh).history,
{
    let c = color_for_args(args);
    sh.prompt_color = c;
    c
}

/// The prompt of the read-eval loop: the working directory, then ` $ :`.
pub fn repl_prompt(cwd: &str) -> (r: String)
    ensures
        r@ == cwd@ + " $ :"@,
{
    let mut p = String::from_str(cwd);
    p.append(" $ :");
    p
}

/// The prompt that shows the working directory, with the home directory
/// `home` (if known) shown as `~`, then ` $ `.
pub fn prompt_for(cwd: &str, home: Option<&str>) -> (r: String)
    ensures
        r@ == abbreviated(cwd@, match home { Some(h) => Some(h@), None => None }) + " $ "@,
{
    let mut p = abbreviate_home(cwd, home);
    p.append(" $ ");
    p
}

/// One command to run: the builtin its first word names, if one is
/// registered under it, and its words.
#[derive(Debug)]
pub struct Step {
    pub builtin: Option<BuiltinKind>,
    pub argv: Vec<String>,
}

/// What a step stands for: the builtin and the words.
pub open spec fn step_view(s: Step) -> (Option<BuiltinKind>, Seq<Seq<char>>) {
    (s.builtin, string_views(s.argv@))
}

/// What steps stand for.
pub open spec fn step_views(s: Seq<Step>) -> Seq<(Option<BuiltinKind>, Seq<Seq<char>>)> {
    s.map_values(|x: Step| step_view(x))
}

/// The builtin registered under `name`.
pub open spec fn lookup(m: Map<Seq<char>, BuiltinKind>, name: Seq<char>) -> Option<BuiltinKind> {
    if m.dom().contains(name) {
        Some(m[name])
    } else {
        None
    }
}

/// The steps of a sequence of pipeline stages: one per stage that holds a word.
pub open spec fn stage_steps(stages: Seq<Seq<char>>, m: Map<Seq<char>, BuiltinKind>) -> Seq<(Option<BuiltinKind>, Seq<Seq<char>>)>
    decreases stages.len(),
{
    if stages.len() == 0 {
        Seq::empty()
    } else {
        let w = words_of(stages.last());
        stage_steps(stages.drop_last(), m) + if w.len() > 0 {
            seq![(lookup(m, w[0]), w)]
        } else {
            Seq::empty()
        }
    }
}

/// The steps of a sequence of commands, each split into pipeline stages.
pub open spec fn command_steps(cmds: Seq<Seq<char>>, m: Map<Seq<char>, BuiltinKind>) -> Seq<(Option<BuiltinKind>, Seq<Seq<char>>)>
    decreases cmds.len(),
{
    if cmds.len() == 0 {
        Seq::empty()
    } else {
        command_steps(cmds.drop_last(), m) + stage_steps(piped(cmds.last()), m)
    }
}

/// The steps of an input line: its `;`-separated commands, each split at
/// `|` into stages, each stage split into words, stages without words
/// left out, in order.
pub open spec fn planned(line: Seq<char>, m: Map<Seq<char>, BuiltinKind>) -> Seq<(Option<BuiltinKind>, Seq<Seq<char>>)> {
    command_steps(chained(line), m)
}

/// What the read-eval loop does with a line.
#[derive(Debug)]
pub enum LineAction {
    /// Show the help text.
    ShowHelp,
    /// Leave the shell.
    Exit,
    /// Clear the screen and start over.
    Clear,
    /// Input ended: leave the shell.
    EndOfInput,
    /// Nothing to do.
    Skip,
    /// Run these steps in order.
    Execute(Vec<Step>),
}

proof fn lemma_step_views_push(s: Seq<Step>, x: Step)
    ensures
        step_views(s.push(x)) == step_views(s).push(step_view(x)),
{
    assert(step_views(s.push(x)) =~= step_views(s).push(step_view(x)));
}

/// What the read-eval loop does with a line (with trailing whitespace
/// already removed) of which `bytes_read` bytes were read: the trimmed line
/// `help`, `exit` or `clear` selects that action; a read of nothing ends the
/// input; a blank line is skipped; any other line is run as `planned` says.
pub fn plan_line(input: &str, bytes_read: usize, reg: &BuiltinRegistry) -> (r: LineAction)
    ensures
        trim_seq(input@) == "help"@ ==> r is ShowHelp,
        trim_seq(input@) != "help"@ && trim_seq(input@) == "exit"@ ==> r is Exit,
        trim_seq(input@) != "help"@ && trim_seq(input@) != "exit"@ && trim_seq(input@) == "clear"@ ==> r is Clear,
        trim_seq(input@) != "help"@ && trim_seq(input@) != "exit"@ && trim_seq(input@) != "clear"@ && bytes_read == 0
            ==> r is EndOfInput,
        trim_seq(input@) != "help"@ && trim_seq(input@) != "exit"@ && trim_seq(input@) != "clear"@ && bytes_read != 0
            && trim_seq(input@).len() == 0 ==> r is Skip,
        trim_seq(input@) != "help"@ && trim_seq(input@) != "exit"@ && trim_seq(input@) != "clear"@ && bytes_read != 0
            && trim_seq(input@).len() != 0 ==> (r matches LineAction::Execute(steps) && step_views(steps@) == planned(
            input@,
            reg@,
        )),
{
    let t = trim(input);
    if str_eq(t, "help") {
        return LineAction::ShowHelp;
    }
    if str_eq(t, "exit") {
        return LineAction::Exit;
    }
    if str_eq(t, "clear") {
        return LineAction::Clear;
    }
    if bytes_read == 0 {
        return LineAction::EndOfInput;
    }
    if t.unicode_len() == 0 {
        return LineAction::Skip;
    }
    let ghost m = reg@;
    let commands = chain_commands(input);
    let ghost cmds = chained(input@);
    let mut steps: Vec<Step> = Vec::new();
    let mut i: usize = 0;
    assert(cmds.take(0) =~= Seq::<Seq<char>>::empty());
    assert(step_views(steps@) =~= Seq::<(Option<BuiltinKind>, Seq<Seq<char>>)>::empty());
    while i < commands.len()
        invariant
            i <= commands.len(),
            m == reg@,
            str_views(commands@) == cmds,
            step_views(steps@) == command_steps(cmds.take(i as int), m),
        decreases commands.len() - i,
    {
        assert(str_views(commands@)[i as int] == commands@[i as int]@);
        let pipes = parse_pipes(commands[i]);
        let ghost stages = piped(commands@[i as int]@);
        let ghost base = step_views(steps@);
        let mut j: usize = 0;
        assert(stages.take(0) =~= Seq::<Seq<char>>::empty());
        assert(base + stage_steps(stages.take(0), m) =~= base);
        while j < pipes.len()
            invariant
                j <= pipes.len(),
                m == reg@,
                str_views(pipes@) == stages,
                step_views(steps@) == base + stage_steps(stages.take(j as int), m),
            decreases pipes.len() - j,
        {
            assert(str_views(pipes@)[j as int] == pipes@[j as int]@);
            assert(stages.take(j + 1).drop_last() =~= stages.take(j as int));
            assert(stages.take(j + 1).last() == pipes@[j as int]@);
            match parts(pipes[j]) {
                Some(cmd) => {
                    assert(string_views(cmd.argv@)[0] == cmd.argv@[0]@);
                    let builtin = reg.get(cmd.argv[0].as_str());
                    let step = Step { builtin, argv: cmd.argv };
                    let ghost before = steps@;
                    steps.push(step);
                    proof {
                        lemma_step_views_push(before, step);
                    }
                    assert(step_views(steps@) =~= base + stage_steps(stages.take(j + 1), m));
                },
                None => {
                    assert(step_views(steps@) =~= base + stage_steps(stages.take(j + 1), m));
                },
            }
            j = j + 1;
        }
        assert(stages.take(pipes.len() as int) =~= stages);
        assert(cmds.take(i + 1).drop_last() =~= cmds.take(i as int));
        assert(cmds.take(i + 1).last() == commands@[i as int]@);
        i = i + 1;
    }
    assert(cmds.take(commands.len() as int) =~= cmds);
    LineAction::Execute(steps)
}

} // verus!
