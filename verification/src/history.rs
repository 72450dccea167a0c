//! A plain list of the lines entered, oldest first.

use vstd::prelude::*;

verus! {

/// The lines entered so far.
pub struct History {
    pub commands: Vec<String>,
}

impl History {
    /// An empty history.
    pub fn new() -> (h: History)
        ensures
            h.commands@.len() == 0,
    {
        History { commands: Vec::new() }
    }

    /// Appends a line.
    pub fn add(&mut self, cmd: String)
        ensures
            final(self).commands@ == old(self).commands@.push(cmd),
    {
        self.commands.push(cmd);
    }

    /// The line at position `idx`, if there is one.
    pub fn get(&self, idx: usize) -> (r: Option<&String>)
        ensures
            r == if idx < self.commands@.len() { Some(&self.commands@[idx as int]) } else { None::<&String> },
    {
        if idx < self.commands.len() {
            Some(&self.commands[idx])
        } else {
            None
        }
    }
}

/// A line just added is the last one: `get` at the former length finds it,
/// and the earlier lines stay where they were.
pub proof fn law_add_then_get(commands: Seq<String>, cmd: String)
    ensures
        commands.push(cmd)[commands.len() as int] == cmd,
        forall|i: int| 0 <= i < commands.len() ==> #[trigger] commands.push(cmd)[i] == commands[i],
{
}

} // verus!
