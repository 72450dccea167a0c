//! The command history that the `history` builtin shows, kept in
//! rustyline's in-memory history.

use vstd::prelude::*;
use crate::text::is_ws;
use rustyline::error::ReadlineError;
use rustyline::history::MemHistory;

verus! {

/// rustyline's in-memory history; its contents are read through
/// `history_lines_of` and the settings below.
#[verifier::external_type_specification]
#[verifier::external_body]
pub struct ExMemHistory(MemHistory);

/// rustyline's error type, carried through as an opaque value.
#[verifier::external_type_specification]
#[verifier::external_body]
pub struct ExReadlineError(ReadlineError);

/// The lines a history holds, oldest first.
pub uninterp spec fn history_lines_of(h: MemHistory) -> Seq<Seq<char>>;

/// The most lines a history keeps (`max_len`).
pub uninterp spec fn history_capacity(h: MemHistory) -> nat;

/// Whether the history drops a line equal to the last one (`ignore_dups`).
pub uninterp spec fn history_skips_repeats(h: MemHistory) -> bool;

/// Whether the history drops lines that start with whitespace (`ignore_space`).
pub uninterp spec fn history_skips_spaced(h: MemHistory) -> bool;

/// The history settings are those of `h`.
pub open spec fn same_settings(a: MemHistory, b: MemHistory) -> bool {
    &&& history_capacity(a) == history_capacity(b)
    &&& history_skips_repeats(a) == history_skips_repeats(b)
    &&& history_skips_spaced(a) == history_skips_spaced(b)
}

/// Whether adding `line` to `h` leaves it unchanged (rustyline's `ignore`).
pub open spec fn history_ignores(h: MemHistory, line: Seq<char>) -> bool {
    let lines = history_lines_of(h);
    ||| history_capacity(h) == 0
    ||| line.len() == 0
    ||| (history_skips_spaced(h) && is_ws(line[0]))
    ||| (history_skips_repeats(h) && lines.len() > 0 && lines.last() == line)
}

/// The lines of `h` once `line` is added to it.
pub open spec fn history_after_add(h: MemHistory, line: Seq<char>) -> Seq<Seq<char>> {
    let lines = history_lines_of(h);
    if history_ignores(h, line) {
        lines
    } else if lines.len() == history_capacity(h) {
        lines.drop_first().push(line)
    } else {
        lines.push(line)
    }
}

/// A new, empty history (rustyline's `MemHistory::new`), made with the
/// default configuration: at most 100 lines, a line equal to the last one
/// dropped, lines that start with whitespace kept.
#[verifier::external_body]
pub(crate) fn new_history() -> (h: MemHistory)
    ensures
        history_lines_of(h) == Seq::<Seq<char>>::empty(),
        history_capacity(h) == 100,
        history_skips_repeats(h),
        !history_skips_spaced(h),
{
    MemHistory::new()
}

/// Adds a line to a history (rustyline's `History::add` for `MemHistory`):
/// an ignored line (see `history_ignores`) leaves it unchanged and gives
/// `Ok(false)`; otherwise the line is appended, the oldest line first
/// dropped when the history is full, and the result is `Ok(true)`.
#[verifier::external_body]
fn history_add(h: &mut MemHistory, line: &str) -> (r: Result<bool, ReadlineError>)
    ensures
        same_settings(*final(h), *old(h)),
        history_lines_of(*final(h)) == history_after_add(*old(h), line@),
        r matches Ok(added) && added == !history_ignores(*old(h), line@),
{
    rustyline::history::History::add(h, line)
}

/// The number of lines in a history (rustyline's `History::len`).
#[verifier::external_body]
fn history_len(h: &MemHistory) -> (n: usize)
    ensures
        n == history_lines_of(*h).len(),
{
    rustyline::history::History::len(h)
}

/// The line at position `i` of a history (rustyline's `Index` for
/// `MemHistory`), copied.
#[verifier::external_body]
fn history_line(h: &MemHistory, i: usize) -> (s: String)
    requires
        i < history_lines_of(*h).len(),
    ensures
        s@ == history_lines_of(*h)[i as int],
{
    h[i].clone()
}

/// Records a line in the history; whether it was added.
pub fn remember(h: &mut MemHistory, line: &str) -> (added: bool)
    ensures
        same_settings(*final(h), *old(h)),
        history_lines_of(*final(h)) == history_after_add(*old(h), line@),
        added == !history_ignores(*old(h), line@),
{
    match history_add(h, line) {
        Ok(added) => added,
        Err(_) => false,
    }
}

/// The lines of a history, oldest first.
pub fn history_snapshot(h: &MemHistory) -> (v: Vec<String>)
    ensures
        v@.map_values(|s: String| s@) == history_lines_of(*h),
{
    let n = history_len(h);
    let mut v: Vec<String> = Vec::new();
    let mut i: usize = 0;
    while i < n
        invariant
            i <= n,
            n == history_lines_of(*h).len(),
            v@.map_values(|s: String| s@) == history_lines_of(*h).take(i as int),
        decreases n - i,
    {
        let s = history_line(h, i);
        let ghost before = v@;
        v.push(s);
        assert(v@.map_values(|s: String| s@) =~= before.map_values(|s: String| s@).push(s@));
        assert(history_lines_of(*h).take(i + 1) =~= history_lines_of(*h).take(i as int).push(s@));
        i = i + 1;
    }
    assert(history_lines_of(*h).take(n as int) =~= history_lines_of(*h));
    v
}

/// A line that is recorded becomes the newest line; with repeats skipped,
/// recording the same line again right after leaves the history as it is.
pub proof fn law_repeat_recorded_once(h: MemHistory, after: MemHistory, line: Seq<char>)
    requires
        same_settings(after, h),
        history_lines_of(after) == history_after_add(h, line),
    ensures
        !history_ignores(h, line) ==> history_lines_of(after).last() == line,
        !history_ignores(h, line) && history_skips_repeats(h) ==> history_ignores(after, line),
        history_skips_repeats(h) && line.len() > 0 && history_capacity(h) > 0 ==> history_after_add(after, line)
            == history_lines_of(after),
{
}

} // verus!
