//! Character-level helpers on which the parsers of the shell are built.

use vstd::prelude::*;
use vstd::string::StrSliceExecFns;

verus! {

/// Unicode `White_Space`, the set that `char::is_whitespace` tests.
pub open spec fn is_ws(c: char) -> bool {
    ||| ('\u{9}' <= c && c <= '\u{d}')
    ||| c == ' '
    ||| c == '\u{85}'
    ||| c == '\u{a0}'
    ||| c == '\u{1680}'
    ||| ('\u{2000}' <= c && c <= '\u{200a}')
    ||| c == '\u{2028}'
    ||| c == '\u{2029}'
    ||| c == '\u{202f}'
    ||| c == '\u{205f}'
    ||| c == '\u{3000}'
}

/// Whether `c` is a whitespace character.
pub fn is_whitespace(c: char) -> (r: bool)
    ensures
        r == is_ws(c),
{
    ('\u{9}' <= c && c <= '\u{d}') || c == ' ' || c == '\u{85}' || c == '\u{a0}' || c == '\u{1680}'
        || ('\u{2000}' <= c && c <= '\u{200a}') || c == '\u{2028}' || c == '\u{2029}' || c
        == '\u{202f}' || c == '\u{205f}' || c == '\u{3000}'
}

/// The characters of `s`, in order.
pub fn chars_of(s: &str) -> (v: Vec<char>)
    ensures
        v@ == s@,
{
    broadcast use vstd::string::group_string_axioms;
    let mut v: Vec<char> = Vec::new();
    for c in it: s.chars()
        invariant
            v@ == it.seq().take(it.index() as int),
    {
        v.push(c);
    }
    v
}

} // verus!

verus! {

/// Builds a `String` out of characters (std's `String::from_iter`); the
/// string holds exactly those characters.
#[verifier::external_body]
pub(crate) fn string_from_chars(v: Vec<char>) -> (s: String)
    ensures
        s@ == v@,
{
    String::from_iter(v)
}

/// Appends `s` to `v`.
pub fn push_str_chars(v: &mut Vec<char>, s: &str)
    ensures
        final(v)@ == old(v)@ + s@,
{
    let mut w = chars_of(s);
    v.append(&mut w);
}

} // verus!

verus! {

/// `s` without its leading whitespace.
pub open spec fn trim_start_seq(s: Seq<char>) -> Seq<char>
    decreases s.len(),
{
    if s.len() > 0 && is_ws(s[0]) {
        trim_start_seq(s.drop_first())
    } else {
        s
    }
}

/// `s` without its trailing whitespace.
pub open spec fn trim_end_seq(s: Seq<char>) -> Seq<char>
    decreases s.len(),
{
    if s.len() > 0 && is_ws(s.last()) {
        trim_end_seq(s.drop_last())
    } else {
        s
    }
}

/// `s` without leading and trailing whitespace (what `str::trim` returns).
pub open spec fn trim_seq(s: Seq<char>) -> Seq<char> {
    trim_end_seq(trim_start_seq(s))
}

/// The pieces of `s` between occurrences of `sep` (what `str::split` yields):
/// one more piece than there are separators, empty pieces included.
pub open spec fn split_seq(s: Seq<char>, sep: char) -> Seq<Seq<char>>
    decreases s.len(),
{
    if s.len() == 0 {
        seq![Seq::empty()]
    } else {
        let p = split_seq(s.drop_last(), sep);
        if s.last() == sep {
            p.push(Seq::empty())
        } else {
            p.update(p.len() - 1, p.last().push(s.last()))
        }
    }
}

pub proof fn lemma_split_nonempty(s: Seq<char>, sep: char)
    ensures
        split_seq(s, sep).len() >= 1,
    decreases s.len(),
{
    if s.len() > 0 {
        lemma_split_nonempty(s.drop_last(), sep);
    }
}

proof fn lemma_trim_start_at(s: Seq<char>, k: int)
    requires
        0 <= k <= s.len(),
        forall|j: int| 0 <= j < k ==> is_ws(#[trigger] s[j]),
        k == s.len() || !is_ws(s[k]),
    ensures
        trim_start_seq(s) == s.skip(k),
    decreases k,
{
    if k > 0 {
        assert(is_ws(s[0]));
        let t = s.drop_first();
        assert forall|j: int| 0 <= j < k - 1 implies is_ws(#[trigger] t[j]) by {
            assert(t[j] == s[j + 1]);
        }
        lemma_trim_start_at(t, k - 1);
        assert(t.skip(k - 1) =~= s.skip(k));
    } else {
        assert(s.skip(0) =~= s);
    }
}

proof fn lemma_trim_end_at(s: Seq<char>, k: int)
    requires
        0 <= k <= s.len(),
        forall|j: int| k <= j < s.len() ==> is_ws(#[trigger] s[j]),
        k == 0 || !is_ws(s[k - 1]),
    ensures
        trim_end_seq(s) == s.take(k),
    decreases s.len() - k,
{
    if k < s.len() {
        assert(is_ws(s.last()));
        let t = s.drop_last();
        assert forall|j: int| k <= j < t.len() implies is_ws(#[trigger] t[j]) by {
            assert(t[j] == s[j]);
        }
        lemma_trim_end_at(t, k);
        assert(t.take(k) =~= s.take(k));
    } else {
        assert(s.take(k) =~= s);
    }
}

/// The bounds of `v[lo..hi]` once whitespace is trimmed from both ends.
pub fn trim_range(v: &Vec<char>, lo: usize, hi: usize) -> (r: (usize, usize))
    requires
        lo <= hi <= v.len(),
    ensures
        lo <= r.0 <= r.1 <= hi,
        v@.subrange(r.0 as int, r.1 as int) == trim_seq(v@.subrange(lo as int, hi as int)),
{
    let mut a: usize = lo;
    while a < hi && is_whitespace(v[a])
        invariant
            lo <= a <= hi <= v.len(),
            forall|j: int| lo <= j < a ==> is_ws(#[trigger] v@[j]),
        decreases hi - a,
    {
        a = a + 1;
    }
    let mut b: usize = hi;
    while b > a && is_whitespace(v[b - 1])
        invariant
            lo <= a <= b <= hi <= v.len(),
            forall|j: int| b <= j < hi ==> is_ws(#[trigger] v@[j]),
        decreases b - a,
    {
        b = b - 1;
    }
    proof {
        let sub = v@.subrange(lo as int, hi as int);
        lemma_trim_start_at(sub, a - lo);
        let t = sub.skip(a - lo);
        assert(t =~= v@.subrange(a as int, hi as int));
        lemma_trim_end_at(t, b - a);
        assert(t.take(b - a) =~= v@.subrange(a as int, b as int));
    }
    (a, b)
}

/// `s` without leading and trailing whitespace.
pub fn trim(s: &str) -> (r: &str)
    ensures
        r@ == trim_seq(s@),
{
    let v = chars_of(s);
    let (a, b) = trim_range(&v, 0, v.len());
    assert(v@.subrange(0, v@.len() as int) =~= v@);
    s.substring_char(a, b)
}

/// `s` without trailing whitespace.
pub fn trim_end(s: &str) -> (r: &str)
    ensures
        r@ == trim_end_seq(s@),
{
    let v = chars_of(s);
    let mut b: usize = v.len();
    while b > 0 && is_whitespace(v[b - 1])
        invariant
            b <= v.len(),
            forall|j: int| b <= j < v.len() ==> is_ws(#[trigger] v@[j]),
        decreases b,
    {
        b = b - 1;
    }
    proof {
        lemma_trim_end_at(v@, b as int);
    }
    s.substring_char(0, b)
}

/// Each piece trimmed of whitespace.
pub open spec fn trim_each(ps: Seq<Seq<char>>) -> Seq<Seq<char>> {
    ps.map_values(|p: Seq<char>| trim_seq(p))
}

/// The pieces that are not empty, in order.
pub open spec fn non_empty(ps: Seq<Seq<char>>) -> Seq<Seq<char>> {
    ps.filter(|p: Seq<char>| p.len() > 0)
}

/// The views of a sequence of string slices.
pub open spec fn str_views(ps: Seq<&str>) -> Seq<Seq<char>> {
    ps.map_values(|p: &str| p@)
}

proof fn lemma_trim_each_push(ps: Seq<Seq<char>>, x: Seq<char>)
    ensures
        trim_each(ps.push(x)) == trim_each(ps).push(trim_seq(x)),
{
    assert(trim_each(ps.push(x)) =~= trim_each(ps).push(trim_seq(x)));
}

pub proof fn lemma_non_empty_push(ps: Seq<Seq<char>>, x: Seq<char>)
    ensures
        non_empty(ps.push(x)) == if x.len() > 0 { non_empty(ps).push(x) } else { non_empty(ps) },
{
    reveal(Seq::filter);
    assert(ps.push(x).drop_last() =~= ps);
}

proof fn lemma_str_views_push<'a>(ps: Seq<&'a str>, x: &'a str)
    ensures
        str_views(ps.push(x)) == str_views(ps).push(x@),
{
    assert(str_views(ps.push(x)) =~= str_views(ps).push(x@));
}

/// The pieces of `input` between occurrences of `sep`, each trimmed of
/// whitespace; empty pieces are dropped unless `keep_empty`.
pub fn split_trimmed(input: &str, sep: char, keep_empty: bool) -> (r: Vec<&str>)
    ensures
        keep_empty ==> str_views(r@) == trim_each(split_seq(input@, sep)),
        !keep_empty ==> str_views(r@) == non_empty(trim_each(split_seq(input@, sep))),
{
    let v = chars_of(input);
    let mut out: Vec<&str> = Vec::new();
    let mut start: usize = 0;
    let mut i: usize = 0;
    proof {
        assert(v@.take(0) =~= Seq::<char>::empty());
        assert(split_seq(Seq::<char>::empty(), sep).drop_last() =~= Seq::<Seq<char>>::empty());
        assert(trim_each(Seq::<Seq<char>>::empty()) =~= Seq::<Seq<char>>::empty());
        reveal(Seq::filter);
        assert(str_views(out@) =~= Seq::<Seq<char>>::empty());
    }
    while i < v.len()
        invariant
            v@ == input@,
            start <= i <= v.len(),
            split_seq(v@.take(i as int), sep).len() >= 1,
            split_seq(v@.take(i as int), sep).last() == v@.subrange(start as int, i as int),
            keep_empty ==> str_views(out@) == trim_each(split_seq(v@.take(i as int), sep).drop_last()),
            !keep_empty ==> str_views(out@) == non_empty(trim_each(split_seq(v@.take(i as int), sep).drop_last())),
        decreases v.len() - i,
    {
        let ghost prev = split_seq(v@.take(i as int), sep);
        let ghost next_s = v@.take(i + 1);
        assert(next_s.drop_last() =~= v@.take(i as int));
        if v[i] == sep {
            let (a, b) = trim_range(&v, start, i);
            let piece = input.substring_char(a, b);
            let ghost before = out@;
            assert(split_seq(next_s, sep) == prev.push(Seq::empty()));
            assert(split_seq(next_s, sep).drop_last() =~= prev);
            assert(prev =~= prev.drop_last().push(prev.last()));
            proof {
                lemma_trim_each_push(prev.drop_last(), prev.last());
                lemma_non_empty_push(trim_each(prev.drop_last()), trim_seq(prev.last()));
            }
            if keep_empty || a < b {
                out.push(piece);
                proof {
                    lemma_str_views_push(before, piece);
                }
            }
            start = i + 1;
        } else {
            assert(split_seq(next_s, sep) == prev.update(prev.len() - 1, prev.last().push(v@[i as int])));
            assert(split_seq(next_s, sep).drop_last() =~= prev.drop_last());
        }
        i = i + 1;
        assert(split_seq(v@.take(i as int), sep).last() =~= v@.subrange(start as int, i as int));
    }
    let ghost all = split_seq(v@.take(i as int), sep);
    assert(v@.take(i as int) =~= input@);
    let (a, b) = trim_range(&v, start, i);
    let piece = input.substring_char(a, b);
    let ghost before = out@;
    assert(all =~= all.drop_last().push(all.last()));
    proof {
        lemma_trim_each_push(all.drop_last(), all.last());
        lemma_non_empty_push(trim_each(all.drop_last()), trim_seq(all.last()));
    }
    if keep_empty || a < b {
        out.push(piece);
        proof {
            lemma_str_views_push(before, piece);
        }
    }
    out
}

proof fn lemma_trim_start_shape(s: Seq<char>)
    ensures
        trim_start_seq(s).len() == 0 || !is_ws(trim_start_seq(s)[0]),
        forall|c: char| !s.contains(c) ==> !trim_start_seq(s).contains(c),
    decreases s.len(),
{
    if s.len() > 0 && is_ws(s[0]) {
        lemma_trim_start_shape(s.drop_first());
        assert forall|c: char| !s.contains(c) implies !s.drop_first().contains(c) by {
            if s.drop_first().contains(c) {
                let j = choose|j: int| 0 <= j < s.drop_first().len() && s.drop_first()[j] == c;
                assert(s[j + 1] == c);
            }
        }
    }
}

proof fn lemma_trim_end_shape(s: Seq<char>)
    ensures
        trim_end_seq(s).len() == 0 || !is_ws(trim_end_seq(s).last()),
        trim_end_seq(s).len() <= s.len(),
        trim_end_seq(s) == s.take(trim_end_seq(s).len() as int),
    decreases s.len(),
{
    if s.len() > 0 && is_ws(s.last()) {
        lemma_trim_end_shape(s.drop_last());
        let t = trim_end_seq(s.drop_last());
        assert(s.drop_last().take(t.len() as int) =~= s.take(t.len() as int));
    } else {
        assert(s.take(s.len() as int) =~= s);
    }
}

/// Trimming leaves a string that starts and ends with a non-space and that
/// holds no character the untrimmed string lacked.
pub proof fn lemma_trim_shape(s: Seq<char>)
    ensures
        trim_seq(s).len() == 0 || (!is_ws(trim_seq(s)[0]) && !is_ws(trim_seq(s).last())),
        forall|c: char| !s.contains(c) ==> !trim_seq(s).contains(c),
{
    lemma_trim_start_shape(s);
    let u = trim_start_seq(s);
    lemma_trim_end_shape(u);
    let t = trim_end_seq(u);
    if t.len() > 0 {
        assert(t[0] == u[0]);
    }
    assert forall|c: char| !s.contains(c) implies !t.contains(c) by {
        if t.contains(c) {
            let j = choose|j: int| 0 <= j < t.len() && t[j] == c;
            assert(u[j] == c);
        }
    }
}

/// Trimming is idempotent.
pub proof fn lemma_trim_idempotent(s: Seq<char>)
    ensures
        trim_seq(trim_seq(s)) == trim_seq(s),
{
    lemma_trim_shape(s);
    let t = trim_seq(s);
    if t.len() > 0 {
        assert(trim_start_seq(t) == t);
        assert(trim_end_seq(t) == t);
    } else {
        assert(trim_start_seq(t) == t);
    }
}

/// No piece of a split holds the separator.
pub proof fn lemma_split_pieces_lack_sep(s: Seq<char>, sep: char)
    ensures
        forall|i: int| 0 <= i < split_seq(s, sep).len() ==> !(#[trigger] split_seq(s, sep)[i]).contains(sep),
    decreases s.len(),
{
    if s.len() > 0 {
        lemma_split_pieces_lack_sep(s.drop_last(), sep);
        lemma_split_nonempty(s.drop_last(), sep);
        let p = split_seq(s.drop_last(), sep);
        if s.last() != sep {
            let q = p.last().push(s.last());
            assert(!q.contains(sep)) by {
                if q.contains(sep) {
                    let j = choose|j: int| 0 <= j < q.len() && q[j] == sep;
                    if j < p.last().len() {
                        assert(p.last()[j] == sep);
                        assert(p[p.len() - 1].contains(sep));
                    }
                }
            }
        } else {
            assert(!Seq::<char>::empty().contains(sep));
        }
    }
}

/// What `non_empty` keeps is non-empty and comes from the input.
pub proof fn lemma_non_empty_members(ps: Seq<Seq<char>>)
    ensures
        forall|i: int|
            0 <= i < non_empty(ps).len() ==> (#[trigger] non_empty(ps)[i]).len() > 0 && ps.contains(
                non_empty(ps)[i],
            ),
    decreases ps.len(),
{
    reveal(Seq::filter);
    if ps.len() > 0 {
        lemma_non_empty_members(ps.drop_last());
        lemma_non_empty_push(ps.drop_last(), ps.last());
        assert(ps.drop_last().push(ps.last()) =~= ps);
        let q = non_empty(ps.drop_last());
        assert forall|i: int| 0 <= i < non_empty(ps).len() implies (#[trigger] non_empty(ps)[i]).len() > 0
            && ps.contains(non_empty(ps)[i]) by {
            if i < q.len() {
                assert(non_empty(ps)[i] == q[i]);
                let j = choose|j: int| 0 <= j < ps.drop_last().len() && ps.drop_last()[j] == q[i];
                assert(ps[j] == q[i]);
            } else {
                assert(non_empty(ps)[i] == ps.last());
                assert(ps[ps.len() - 1] == ps.last());
            }
        }
    }
}

/// Whether `a` and `b` hold the same characters.
pub fn str_eq(a: &str, b: &str) -> (r: bool)
    ensures
        r == (a@ == b@),
{
    let x = chars_of(a);
    let y = chars_of(b);
    if x.len() != y.len() {
        return false;
    }
    let mut i: usize = 0;
    while i < x.len()
        invariant
            x@ == a@,
            y@ == b@,
            x.len() == y.len(),
            i <= x.len(),
            forall|k: int| 0 <= k < i ==> x@[k] == y@[k],
        decreases x.len() - i,
    {
        if x[i] != y[i] {
            return false;
        }
        i = i + 1;
    }
    assert(x@ =~= y@);
    true
}

/// What `str::to_lowercase` returns for a string: its Unicode lower-case
/// mapping, a function of the string alone.
pub uninterp spec fn lowercase_of(s: Seq<char>) -> Seq<char>;

/// `s` in lower case (std's `str::to_lowercase`). The contract says only
/// that the result is the lower-case mapping of the argument; the mapping
/// itself, Unicode's, is not written out.
#[verifier::external_body]
pub(crate) fn lowercase(s: &str) -> (r: String)
    ensures
        r@ == lowercase_of(s@),
{
    s.to_lowercase()
}

/// What `str::to_uppercase` returns for a string: its Unicode upper-case
/// mapping, a function of the string alone.
pub uninterp spec fn uppercase_of(s: Seq<char>) -> Seq<char>;

/// `s` in upper case (std's `str::to_uppercase`). The contract says only
/// that the result is the upper-case mapping of the argument; the mapping
/// itself, Unicode's, is not written out.
#[verifier::external_body]
pub(crate) fn uppercase(s: &str) -> (r: String)
    ensures
        r@ == uppercase_of(s@),
{
    s.to_uppercase()
}

/// `s` without the dots it starts with (what `trim_start_matches('.')` returns).
pub open spec fn strip_dots(s: Seq<char>) -> Seq<char>
    decreases s.len(),
{
    if s.len() > 0 && s[0] == '.' {
        strip_dots(s.drop_first())
    } else {
        s
    }
}

proof fn lemma_strip_dots_at(s: Seq<char>, k: int)
    requires
        0 <= k <= s.len(),
        forall|j: int| 0 <= j < k ==> #[trigger] s[j] == '.',
        k == s.len() || s[k] != '.',
    ensures
        strip_dots(s) == s.skip(k),
    decreases k,
{
    if k > 0 {
        let t = s.drop_first();
        assert forall|j: int| 0 <= j < k - 1 implies #[trigger] t[j] == '.' by {
            assert(t[j] == s[j + 1]);
        }
        lemma_strip_dots_at(t, k - 1);
        assert(t.skip(k - 1) =~= s.skip(k));
    } else {
        assert(s.skip(0) =~= s);
    }
}

/// Where the characters of `v[lo..hi]` start once leading dots are skipped.
pub fn skip_dots(v: &Vec<char>, lo: usize, hi: usize) -> (a: usize)
    requires
        lo <= hi <= v.len(),
    ensures
        lo <= a <= hi,
        v@.subrange(a as int, hi as int) == strip_dots(v@.subrange(lo as int, hi as int)),
{
    let mut a: usize = lo;
    while a < hi && v[a] == '.'
        invariant
            lo <= a <= hi <= v.len(),
            forall|j: int| lo <= j < a ==> #[trigger] v@[j] == '.',
        decreases hi - a,
    {
        a = a + 1;
    }
    proof {
        let sub = v@.subrange(lo as int, hi as int);
        assert forall|j: int| 0 <= j < a - lo implies #[trigger] sub[j] == '.' by {
            assert(sub[j] == v@[lo + j]);
        }
        lemma_strip_dots_at(sub, a - lo);
        assert(sub.skip(a - lo) =~= v@.subrange(a as int, hi as int));
    }
    a
}

/// Whether `v[lo..hi]` holds exactly the characters of `w`.
pub fn range_eq(v: &Vec<char>, lo: usize, hi: usize, w: &Vec<char>) -> (r: bool)
    requires
        lo <= hi <= v.len(),
    ensures
        r == (v@.subrange(lo as int, hi as int) == w@),
{
    if hi - lo != w.len() {
        return false;
    }
    let mut i: usize = 0;
    while i < w.len()
        invariant
            lo <= hi <= v.len(),
            hi - lo == w.len(),
            i <= w.len(),
            forall|k: int| 0 <= k < i ==> v@[lo + k] == w@[k],
        decreases w.len() - i,
    {
        if v[lo + i] != w[i] {
            return false;
        }
        i = i + 1;
    }
    assert(v@.subrange(lo as int, hi as int) =~= w@);
    true
}

/// Some piece of `list` between `sep`s equals `target` once leading dots
/// are stripped from both.
pub open spec fn some_piece_matches(list: Seq<char>, sep: char, target: Seq<char>) -> bool {
    exists|i: int| 0 <= i < split_seq(list, sep).len() && strip_dots(#[trigger] split_seq(list, sep)[i]) == strip_dots(target)
}

/// Whether some piece of `list` between `sep`s equals `target` once
/// leading dots are stripped from both.
pub fn any_piece_matches(list: &str, sep: char, target: &Vec<char>) -> (r: bool)
    ensures
        r == some_piece_matches(list@, sep, target@),
{
    let v = chars_of(list);
    let ta = skip_dots(target, 0, target.len());
    let goal = slice_chars(target, ta, target.len());
    assert(target@.subrange(0, target@.len() as int) =~= target@);
    let mut found = false;
    let mut start: usize = 0;
    let mut i: usize = 0;
    assert(v@.take(0) =~= Seq::<char>::empty());
    while i < v.len()
        invariant
            v@ == list@,
            goal@ == strip_dots(target@),
            start <= i <= v.len(),
            split_seq(v@.take(i as int), sep).len() >= 1,
            split_seq(v@.take(i as int), sep).last() == v@.subrange(start as int, i as int),
            found == exists|k: int|
                0 <= k < split_seq(v@.take(i as int), sep).len() - 1 && strip_dots(
                    #[trigger] split_seq(v@.take(i as int), sep)[k],
                ) == goal@,
        decreases v.len() - i,
    {
        let ghost prev = split_seq(v@.take(i as int), sep);
        let ghost next_s = v@.take(i + 1);
        assert(next_s.drop_last() =~= v@.take(i as int));
        if v[i] == sep {
            let a = skip_dots(&v, start, i);
            let m = range_eq(&v, a, i, &goal);
            assert(split_seq(next_s, sep) == prev.push(Seq::empty()));
            let ghost nxt = split_seq(next_s, sep);
            assert(nxt[prev.len() - 1] == v@.subrange(start as int, i as int));
            assert(found || m <==> exists|k: int| 0 <= k < nxt.len() - 1 && strip_dots(#[trigger] nxt[k]) == goal@) by {
                if exists|k: int| 0 <= k < nxt.len() - 1 && strip_dots(#[trigger] nxt[k]) == goal@ {
                    let k = choose|k: int| 0 <= k < nxt.len() - 1 && strip_dots(#[trigger] nxt[k]) == goal@;
                    if k < prev.len() - 1 {
                        assert(nxt[k] == prev[k]);
                    }
                }
                if found {
                    let k = choose|k: int| 0 <= k < prev.len() - 1 && strip_dots(#[trigger] prev[k]) == goal@;
                    assert(nxt[k] == prev[k]);
                }
                if m {
                    assert(strip_dots(nxt[prev.len() - 1]) == goal@);
                }
            }
            found = found || m;
            start = i + 1;
        } else {
            assert(split_seq(next_s, sep) == prev.update(prev.len() - 1, prev.last().push(v@[i as int])));
            let ghost nxt = split_seq(next_s, sep);
            assert(found <==> exists|k: int| 0 <= k < nxt.len() - 1 && strip_dots(#[trigger] nxt[k]) == goal@) by {
                if exists|k: int| 0 <= k < nxt.len() - 1 && strip_dots(#[trigger] nxt[k]) == goal@ {
                    let k = choose|k: int| 0 <= k < nxt.len() - 1 && strip_dots(#[trigger] nxt[k]) == goal@;
                    assert(nxt[k] == prev[k]);
                }
                if found {
                    let k = choose|k: int| 0 <= k < prev.len() - 1 && strip_dots(#[trigger] prev[k]) == goal@;
                    assert(nxt[k] == prev[k]);
                }
            }
        }
        i = i + 1;
        assert(split_seq(v@.take(i as int), sep).last() =~= v@.subrange(start as int, i as int));
    }
    assert(v@.take(i as int) =~= list@);
    let ghost all = split_seq(list@, sep);
    let a = skip_dots(&v, start, i);
    let m = range_eq(&v, a, i, &goal);
    assert(found || m <==> exists|k: int| 0 <= k < all.len() && strip_dots(#[trigger] all[k]) == goal@) by {
        if exists|k: int| 0 <= k < all.len() && strip_dots(#[trigger] all[k]) == goal@ {
            let k = choose|k: int| 0 <= k < all.len() && strip_dots(#[trigger] all[k]) == goal@;
        }
        if m {
            assert(strip_dots(all[all.len() - 1]) == goal@);
        }
    }
    found || m
}

fn slice_chars(v: &Vec<char>, lo: usize, hi: usize) -> (r: Vec<char>)
    requires
        lo <= hi <= v.len(),
    ensures
        r@ == v@.subrange(lo as int, hi as int),
{
    let mut r: Vec<char> = Vec::new();
    let mut i: usize = lo;
    while i < hi
        invariant
            lo <= i <= hi <= v.len(),
            r@ == v@.subrange(lo as int, i as int),
        decreases hi - i,
    {
        r.push(v[i]);
        i = i + 1;
        assert(r@ =~= v@.subrange(lo as int, i as int));
    }
    r
}

/// The pieces joined with `sep` between each two.
pub open spec fn joined(ps: Seq<Seq<char>>, sep: Seq<char>) -> Seq<char>
    decreases ps.len(),
{
    if ps.len() == 0 {
        Seq::empty()
    } else if ps.len() == 1 {
        ps[0]
    } else {
        joined(ps.drop_last(), sep) + sep + ps.last()
    }
}

/// Splitting at a separator and joining the pieces with it gives back the
/// string that was split.
pub proof fn law_join_split(s: Seq<char>, sep: char)
    ensures
        joined(split_seq(s, sep), seq![sep]) == s,
    decreases s.len(),
{
    if s.len() == 0 {
        assert(joined(split_seq(s, sep), seq![sep]) =~= s);
    } else {
        let t = s.drop_last();
        let c = s.last();
        law_join_split(t, sep);
        lemma_split_nonempty(t, sep);
        let p = split_seq(t, sep);
        assert(t.push(c) =~= s);
        if c == sep {
            let q = p.push(Seq::empty());
            assert(q.drop_last() =~= p);
            assert(joined(q, seq![sep]) =~= s);
        } else {
            let q = p.update(p.len() - 1, p.last().push(c));
            if p.len() == 1 {
                assert(joined(q, seq![sep]) =~= s);
            } else {
                assert(q.drop_last() =~= p.drop_last());
                assert(joined(q, seq![sep]) =~= s);
            }
        }
    }
}

/// The number of times `c` occurs in `s`.
pub open spec fn occurrences(s: Seq<char>, c: char) -> nat
    decreases s.len(),
{
    if s.len() == 0 {
        0
    } else {
        occurrences(s.drop_last(), c) + if s.last() == c { 1nat } else { 0 }
    }
}

/// A split has one piece more than there are separators.
pub proof fn law_split_count(s: Seq<char>, sep: char)
    ensures
        split_seq(s, sep).len() == occurrences(s, sep) + 1,
    decreases s.len(),
{
    if s.len() > 0 {
        law_split_count(s.drop_last(), sep);
    }
}

} // verus!
