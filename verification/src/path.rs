//! Paths as text: joining an operand onto the working directory, and
//! abbreviating the home directory.

use vstd::prelude::*;
use vstd::string::StringExecFns;
use crate::error::ShellError;
use crate::text::{chars_of, push_str_chars, string_from_chars};

verus! {

/// A path that starts at the root.
pub open spec fn is_absolute(p: Seq<char>) -> bool {
    p.len() > 0 && p[0] == '/'
}

/// `base` joined with `p`, as a path buffer pushes one path onto another:
/// an absolute `p` replaces `base`; otherwise `p` is appended, after a `/`
/// when `base` is not empty and does not already end in one.
pub open spec fn joined_path(base: Seq<char>, p: Seq<char>) -> Seq<char> {
    if is_absolute(p) {
        p
    } else if base.len() == 0 || base.last() == '/' {
        base + p
    } else {
        base + seq!['/'] + p
    }
}

/// The path that the operand `p` names when the working directory is `cwd`:
/// `p` itself when it is absolute, else `cwd` joined with it.
pub fn resolve_path(cwd: &str, p: &str) -> (r: String)
    ensures
        r@ == joined_path(cwd@, p@),
{
    let pc = chars_of(p);
    if pc.len() > 0 && pc[0] == '/' {
        return String::from_str(p);
    }
    let mut v = chars_of(cwd);
    if v.len() > 0 && v[v.len() - 1] != '/' {
        v.push('/');
    }
    push_str_chars(&mut v, p);
    string_from_chars(v)
}

/// `dir` as a prompt shows it: `~` for the home directory itself, `~/rest`
/// for a directory under it, and `dir` unchanged otherwise or without a home.
pub open spec fn abbreviated(dir: Seq<char>, home: Option<Seq<char>>) -> Seq<char> {
    match home {
        Some(h) => if h.len() > 0 && dir == h {
            seq!['~']
        } else if h.len() > 0 && dir.len() > h.len() && dir.take(h.len() as int) == h
            && dir[h.len() as int] == '/' {
            seq!['~'] + dir.skip(h.len() as int)
        } else {
            dir
        },
        None => dir,
    }
}

/// Whether `v` starts with `w`.
fn has_prefix(v: &Vec<char>, w: &Vec<char>) -> (r: bool)
    ensures
        r == (w.len() <= v.len() && v@.take(w.len() as int) == w@),
{
    if w.len() > v.len() {
        return false;
    }
    let mut i: usize = 0;
    while i < w.len()
        invariant
            w.len() <= v.len(),
            i <= w.len(),
            v@.take(i as int) == w@.take(i as int),
        decreases w.len() - i,
    {
        if v[i] != w[i] {
            assert(v@.take(w.len() as int)[i as int] != w@[i as int]);
            return false;
        }
        assert(v@.take(i + 1) =~= w@.take(i + 1));
        i = i + 1;
    }
    assert(w@.take(w.len() as int) =~= w@);
    true
}

/// The directory `dir` as the prompt shows it (see [`abbreviated`]).
pub fn abbreviate_home(dir: &str, home: Option<&str>) -> (r: String)
    ensures
        r@ == abbreviated(dir@, match home { Some(h) => Some(h@), None => None }),
{
    match home {
        None => String::from_str(dir),
        Some(h) => {
            let d = chars_of(dir);
            let hc = chars_of(h);
            if hc.len() == 0 || !has_prefix(&d, &hc) {
                proof {
                    if hc.len() > 0 && d@ == hc@ {
                        assert(d@.take(hc.len() as int) =~= hc@);
                    }
                }
                return String::from_str(dir);
            }
            if d.len() == hc.len() {
                assert(d@ =~= d@.take(hc.len() as int));
                let mut v: Vec<char> = Vec::new();
                v.push('~');
                assert(v@ =~= seq!['~']);
                return string_from_chars(v);
            }
            if d[hc.len()] != '/' {
                assert(d@ != hc@);
                return String::from_str(dir);
            }
            let mut v: Vec<char> = Vec::new();
            v.push('~');
            let mut i: usize = hc.len();
            while i < d.len()
                invariant
                    hc.len() <= i <= d.len(),
                    v@ == seq!['~'] + d@.subrange(hc.len() as int, i as int),
                decreases d.len() - i,
            {
                v.push(d[i]);
                assert(d@.subrange(hc.len() as int, i + 1) =~= d@.subrange(hc.len() as int, i as int).push(d@[i as int]));
                i = i + 1;
            }
            assert(d@.subrange(hc.len() as int, d.len() as int) =~= d@.skip(hc.len() as int));
            assert(d@ != hc@);
            string_from_chars(v)
        }
    }
}

/// What `Path::file_name` gives for a path: its last component, unless
/// that is `..` or there is none (a function of the path alone).
pub uninterp spec fn file_name_of(p: Seq<char>) -> Option<Seq<char>>;

/// The last component of a path (std's `Path::file_name`), as text. The
/// contract says only that it is the file name of the argument; the rules
/// by which `Path` splits a path into components are not written out.
#[verifier::external_body]
fn file_name(p: &str) -> (r: Option<String>)
    ensures
        match r {
            Some(f) => file_name_of(p@) == Some(f@),
            None => file_name_of(p@) is None,
        },
{
    std::path::Path::new(p).file_name().map(|f| f.to_string_lossy().into_owned())
}

/// The name under which `ls` shows a path that is not a directory: its
/// file name, or nothing when it has none.
pub fn entry_name(p: &str) -> (r: String)
    ensures
        r@ == match file_name_of(p@) {
            Some(f) => f,
            None => Seq::empty(),
        },
{
    match file_name(p) {
        Some(f) => f,
        None => String::new(),
    }
}

/// Where `cp` and `mv` put `src` when asked for `dst`: inside `dst` under
/// the source's file name when `dst` is a directory, else `dst` itself.
pub fn destination(src: &str, dst: &str, dst_is_dir: bool) -> (r: Result<String, ShellError>)
    ensures
        !dst_is_dir ==> (r matches Ok(p) && p@ == dst@),
        dst_is_dir && file_name_of(src@) is Some ==> (r matches Ok(p) && p@ == joined_path(dst@, file_name_of(src@)->0)),
        dst_is_dir && file_name_of(src@) is None ==> (r matches Err(ShellError::Usage(u)) && u@
            == "invalid SRC filename"@),
{
    if !dst_is_dir {
        return Ok(String::from_str(dst));
    }
    match file_name(src) {
        Some(f) => Ok(resolve_path(dst, f.as_str())),
        None => Err(ShellError::Usage("invalid SRC filename")),
    }
}

} // verus!
