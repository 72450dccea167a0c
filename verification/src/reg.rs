//! The builtin commands and the registry that finds them by name.

use vstd::prelude::*;

verus! {

/// The builtin commands of the shell.
#[derive(Debug, PartialEq, Eq, Clone, Copy)]
pub enum BuiltinKind {
    Cat,
    Cd,
    Color,
    Cp,
    Echo,
    Help,
    History,
    Ls,
    Mkdir,
    Mv,
    Pwd,
    Rm,
    TestColors,
    Touch,
}

/// The name under which a builtin registers itself.
pub open spec fn kind_name(k: BuiltinKind) -> Seq<char> {
    match k {
        BuiltinKind::Cat => "cat"@,
        BuiltinKind::Cd => "cd"@,
        BuiltinKind::Color => "color"@,
        BuiltinKind::Cp => "cp"@,
        BuiltinKind::Echo => "echo"@,
        BuiltinKind::Help => "help"@,
        BuiltinKind::History => "history"@,
        BuiltinKind::Ls => "ls"@,
        BuiltinKind::Mkdir => "mkdir"@,
        BuiltinKind::Mv => "mv"@,
        BuiltinKind::Pwd => "pwd"@,
        BuiltinKind::Rm => "rm"@,
        BuiltinKind::TestColors => "test_colors"@,
        BuiltinKind::Touch => "touch"@,
    }
}

/// The name of a builtin.
pub fn builtin_name(k: BuiltinKind) -> (n: &'static str)
    ensures
        n@ == kind_name(k),
{
    match k {
        BuiltinKind::Cat => "cat",
        BuiltinKind::Cd => "cd",
        BuiltinKind::Color => "color",
        BuiltinKind::Cp => "cp",
        BuiltinKind::Echo => "echo",
        BuiltinKind::Help => "help",
        BuiltinKind::History => "history",
        BuiltinKind::Ls => "ls",
        BuiltinKind::Mkdir => "mkdir",
        BuiltinKind::Mv => "mv",
        BuiltinKind::Pwd => "pwd",
        BuiltinKind::Rm => "rm",
        BuiltinKind::TestColors => "test_colors",
        BuiltinKind::Touch => "touch",
    }
}

/// A builtin command.
pub trait Builtin {
    /// Which builtin this is.
    spec fn builtin_kind(&self) -> BuiltinKind;

    /// Which builtin this is.
    fn kind(&self) -> (k: BuiltinKind)
        ensures
            k == self.builtin_kind(),
    ;

    /// The name the command is invoked by.
    fn name(&self) -> (n: &'static str)
        ensures
            n@ == kind_name(self.builtin_kind()),
    ;
}

/// The builtins by name.
pub struct BuiltinRegistry {
    entries: Vec<(String, BuiltinKind)>,
}

/// No name occurs twice.
pub open spec fn distinct_names(s: Seq<(String, BuiltinKind)>) -> bool {
    forall|i: int, j: int| 0 <= i < j < s.len() ==> s[i].0@ != s[j].0@
}

/// Some entry has this name.
pub open spec fn has_name(s: Seq<(String, BuiltinKind)>, name: Seq<char>) -> bool {
    exists|i: int| 0 <= i < s.len() && #[trigger] s[i].0@ == name
}

/// The position of the entry with this name.
pub open spec fn position_of(s: Seq<(String, BuiltinKind)>, name: Seq<char>) -> int {
    choose|i: int| 0 <= i < s.len() && #[trigger] s[i].0@ == name
}

impl View for BuiltinRegistry {
    type V = Map<Seq<char>, BuiltinKind>;

    closed spec fn view(&self) -> Map<Seq<char>, BuiltinKind> {
        Map::new(|k: Seq<char>| has_name(self.entries@, k), |k: Seq<char>| self.entries@[position_of(self.entries@, k)].1)
    }
}

proof fn lemma_position(s: Seq<(String, BuiltinKind)>, name: Seq<char>, i: int)
    requires
        distinct_names(s),
        0 <= i < s.len(),
        s[i].0@ == name,
    ensures
        has_name(s, name),
        position_of(s, name) == i,
{
    assert(s[i].0@ == name);
    let j = position_of(s, name);
    assert(0 <= j < s.len() && s[j].0@ == name);
}

impl BuiltinRegistry {
    #[verifier::type_invariant]
    spec fn names_distinct(self) -> bool {
        distinct_names(self.entries@)
    }

    /// An empty registry.
    pub fn new() -> (r: BuiltinRegistry)
        ensures
            r@ == Map::<Seq<char>, BuiltinKind>::empty(),
    {
        let r = BuiltinRegistry { entries: Vec::new() };
        assert(r@ =~= Map::<Seq<char>, BuiltinKind>::empty());
        r
    }

    /// Registers `b` under its name, replacing a builtin registered under the same name.
    pub fn register<B: Builtin>(&mut self, b: B)
        ensures
            final(self)@ == old(self)@.insert(kind_name(b.builtin_kind()), b.builtin_kind()),
    {
        proof {
            use_type_invariant(&*self);
        }
        let name = b.name();
        let kind = b.kind();
        let key = String::from_str(name);
        let ghost old_entries = self.entries@;
        let mut i: usize = 0;
        while i < self.entries.len() && !(self.entries[i].0 == key)
            invariant
                i <= self.entries.len(),
                self.entries@ == old_entries,
                forall|k: int| 0 <= k < i ==> (#[trigger] self.entries@[k]).0@ != key@,
            decreases self.entries.len() - i,
        {
            i = i + 1;
        }
        let mut entries: Vec<(String, BuiltinKind)> = Vec::new();
        std::mem::swap(&mut entries, &mut self.entries);
        if i < entries.len() {
            assert(entries@[i as int].0@ == key@);
            entries.set(i, (key, kind));
        } else {
            entries.push((key, kind));
        }
        proof {
            let s = entries@;
            assert(distinct_names(s)) by {
                assert forall|a: int, c: int| 0 <= a < c < s.len() implies s[a].0@ != s[c].0@ by {
                    if a != i && c != i {
                        assert(s[a] == old_entries[a] && s[c] == old_entries[c]);
                    }
                }
            }
            lemma_position(s, key@, i as int);
            let m = Map::new(|k: Seq<char>| has_name(s, k), |k: Seq<char>| s[position_of(s, k)].1);
            let o = Map::new(|k: Seq<char>| has_name(old_entries, k), |k: Seq<char>| old_entries[position_of(old_entries, k)].1);
            assert forall|k: Seq<char>| k != key@ implies (has_name(s, k) == has_name(old_entries, k)) && (has_name(s, k)
                ==> s[position_of(s, k)].1 == old_entries[position_of(old_entries, k)].1) by {
                if has_name(s, k) {
                    let j = position_of(s, k);
                    assert(s[j].0@ == k);
                    assert(j != i);
                    assert(s[j] == old_entries[j]);
                    lemma_position(old_entries, k, j);
                }
                if has_name(old_entries, k) {
                    let j = position_of(old_entries, k);
                    assert(old_entries[j].0@ == k);
                    assert(s[j] == old_entries[j]);
                }
            }
            assert(m =~= o.insert(key@, kind));
        }
        self.entries = entries;
    }

    /// The builtin registered under `name`, if any.
    pub fn get(&self, name: &str) -> (r: Option<BuiltinKind>)
        ensures
            r == if self@.dom().contains(name@) { Some(self@[name@]) } else { None::<BuiltinKind> },
    {
        proof {
            use_type_invariant(self);
        }
        let key = String::from_str(name);
        let mut i: usize = 0;
        while i < self.entries.len()
            invariant
                i <= self.entries.len(),
                distinct_names(self.entries@),
                key@ == name@,
                forall|k: int| 0 <= k < i ==> (#[trigger] self.entries@[k]).0@ != key@,
            decreases self.entries.len() - i,
        {
            if self.entries[i].0 == key {
                proof {
                    lemma_position(self.entries@, key@, i as int);
                    assert(self@.dom().contains(name@));
                    assert(self@[name@] == self.entries@[i as int].1);
                }
                return Some(self.entries[i].1);
            }
            i = i + 1;
        }
        assert(!self@.dom().contains(name@));
        None
    }
}

/// After a builtin is registered, its name finds it, and every other name
/// finds what it found before.
pub proof fn law_register_then_get(m: Map<Seq<char>, BuiltinKind>, k: BuiltinKind, name: Seq<char>)
    ensures
        m.insert(kind_name(k), k).dom().contains(kind_name(k)),
        m.insert(kind_name(k), k)[kind_name(k)] == k,
        name != kind_name(k) ==> (m.insert(kind_name(k), k).dom().contains(name) == m.dom().contains(name)),
        name != kind_name(k) && m.dom().contains(name) ==> m.insert(kind_name(k), k)[name] == m[name],
{
}

} // verus!
