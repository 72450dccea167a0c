//! Decimal rendering of integers, with the padding that `format!` applies
//! for widths such as `{:>8}`, `{:02}` and `{:04}`.

use vstd::prelude::*;

verus! {

/// The character of a decimal digit.
pub open spec fn digit_char(d: int) -> char {
    (48 + d) as char
}

/// The decimal digits of `n`, most significant first, without leading zeros.
pub open spec fn dec_digits(n: nat) -> Seq<char>
    decreases n,
{
    if n < 10 {
        seq![digit_char(n as int)]
    } else {
        dec_digits(n / 10).push(digit_char((n % 10) as int))
    }
}

/// `s` preceded by as many `fill` characters as make it `width` characters long.
pub open spec fn pad_left(s: Seq<char>, width: nat, fill: char) -> Seq<char> {
    if s.len() >= width {
        s
    } else {
        Seq::new((width - s.len()) as nat, |i: int| fill) + s
    }
}

/// An integer rendered with zero padding to `width`; a minus sign counts
/// towards the width and stands before the zeros.
pub open spec fn zero_padded(n: int, width: nat) -> Seq<char> {
    if n < 0 {
        seq!['-'] + pad_left(dec_digits((-n) as nat), if width > 0 { (width - 1) as nat } else { 0 }, '0')
    } else {
        pad_left(dec_digits(n as nat), width, '0')
    }
}

/// The number that a string of decimal digits reads as.
pub open spec fn digits_value(s: Seq<char>) -> int
    decreases s.len(),
{
    if s.len() == 0 {
        0
    } else {
        digits_value(s.drop_last()) * 10 + (s.last() as int - 48)
    }
}

/// The decimal rendering of `n` is made of digits, has no leading zero
/// (but for `0` itself), and reads back as `n`.
pub proof fn law_decimal_reads_back(n: nat)
    ensures
        dec_digits(n).len() >= 1,
        forall|i: int| 0 <= i < dec_digits(n).len() ==> '0' <= #[trigger] dec_digits(n)[i] <= '9',
        n > 0 ==> dec_digits(n)[0] != '0',
        digits_value(dec_digits(n)) == n,
    decreases n,
{
    if n >= 10 {
        law_decimal_reads_back(n / 10);
        let d = dec_digits(n);
        assert(d.drop_last() =~= dec_digits(n / 10));
        assert(forall|i: int| 0 <= i < d.len() - 1 ==> d[i] == dec_digits(n / 10)[i]);
        assert(d[0] == dec_digits(n / 10)[0]);
        assert(d.last() == digit_char((n % 10) as int));
        assert(digit_char((n % 10) as int) as int == 48 + n % 10);
        assert(digits_value(d) == digits_value(d.drop_last()) * 10 + (d.last() as int - 48));
        assert(n == (n / 10) * 10 + n % 10);
    } else {
        let d = dec_digits(n);
        assert(d.drop_last() =~= Seq::<char>::empty());
        assert(d[0] == digit_char(n as int));
        assert(digit_char(n as int) as int == 48 + n);
        assert(digits_value(d) == digits_value(d.drop_last()) * 10 + (d.last() as int - 48));
        assert(digits_value(Seq::<char>::empty()) == 0);
    }
}

/// Padding on the left: the result is `width` long or `s` when that is
/// longer already, ends with `s`, and has only `fill` before it.
pub proof fn law_pad_left(s: Seq<char>, width: nat, fill: char)
    ensures
        ({
            let p = pad_left(s, width, fill);
            let k = p.len() - s.len();
            &&& p.len() == if s.len() >= width { s.len() } else { width }
            &&& p.subrange(k, p.len() as int) == s
            &&& forall|i: int| 0 <= i < k ==> #[trigger] p[i] == fill
        }),
{
    let p = pad_left(s, width, fill);
    let k = p.len() - s.len();
    assert(p.subrange(k, p.len() as int) =~= s);
}

/// The decimal digits of `n`.
pub fn decimal_chars(n: u64) -> (v: Vec<char>)
    ensures
        v@ == dec_digits(n as nat),
    decreases n,
{
    let d: u8 = (n % 10) as u8;
    let c: char = (48u8 + d) as char;
    if n < 10 {
        let mut v: Vec<char> = Vec::new();
        v.push(c);
        v
    } else {
        let mut v = decimal_chars(n / 10);
        v.push(c);
        v
    }
}

/// `s` left-padded with `fill` up to `width` characters.
pub fn pad_left_chars(s: Vec<char>, width: usize, fill: char) -> (v: Vec<char>)
    ensures
        v@ == pad_left(s@, width as nat, fill),
{
    if s.len() >= width {
        return s;
    }
    let n: usize = width - s.len();
    let mut v: Vec<char> = Vec::new();
    let mut i: usize = 0;
    while i < n
        invariant
            i <= n,
            v@ == Seq::new(i as nat, |k: int| fill),
        decreases n - i,
    {
        v.push(fill);
        i = i + 1;
        assert(v@ =~= Seq::new(i as nat, |k: int| fill));
    }
    let mut j: usize = 0;
    let ghost pre = v@;
    while j < s.len()
        invariant
            j <= s.len(),
            pre == Seq::new(n as nat, |k: int| fill),
            v@ == pre + s@.take(j as int),
        decreases s.len() - j,
    {
        v.push(s[j]);
        j = j + 1;
        assert(v@ =~= pre + s@.take(j as int));
    }
    assert(s@.take(s.len() as int) =~= s@);
    v
}

/// An unsigned number right-aligned in a field of `width` spaces, as `{:>width}` renders it.
pub fn right_aligned(n: u64, width: usize) -> (v: Vec<char>)
    ensures
        v@ == pad_left(dec_digits(n as nat), width as nat, ' '),
{
    pad_left_chars(decimal_chars(n), width, ' ')
}

/// A signed number with zero padding to `width`, as `{:0width}` renders it.
pub fn zero_padded_chars(n: i64, width: usize) -> (v: Vec<char>)
    requires
        n > i64::MIN,
    ensures
        v@ == zero_padded(n as int, width as nat),
{
    if n < 0 {
        let w: usize = if width > 0 { width - 1 } else { 0 };
        let digits = pad_left_chars(decimal_chars((-n) as u64), w, '0');
        let mut v: Vec<char> = Vec::new();
        v.push('-');
        let mut j: usize = 0;
        while j < digits.len()
            invariant
                j <= digits.len(),
                v@ == seq!['-'] + digits@.take(j as int),
            decreases digits.len() - j,
        {
            v.push(digits[j]);
            j = j + 1;
            assert(v@ =~= seq!['-'] + digits@.take(j as int));
        }
        assert(digits@.take(digits.len() as int) =~= digits@);
        v
    } else {
        pad_left_chars(decimal_chars(n as u64), width, '0')
    }
}

} // verus!
