//! Character-level text helpers: conversion between `str` and `Vec<char>`,
//! equality, white-space trimming, SQL `LIKE` matching and decimal rendering.

use vstd::prelude::*;
use vstd::std_specs::iter::IteratorSpec;

verus! {

broadcast use vstd::string::group_string_axioms;

/// `String::push` appends one character at the end of the string.
#[verifier::external_body]
pub(crate) fn push_char(s: &mut String, c: char)
    ensures
        final(s)@ == old(s)@.push(c),
{
    s.push(c);
}

/// The characters of `s`, in order.
pub fn chars_of(s: &str) -> (v: Vec<char>)
    ensures
        v@ == s@,
{
    let mut out: Vec<char> = Vec::new();
    for c in it: s.chars()
        invariant
            out@ == it.seq().take(it.index() as int),
    {
        out.push(c);
    }
    out
}

/// Builds a `String` holding the characters `cs[lo..hi]`.
pub fn string_from_range(cs: &Vec<char>, lo: usize, hi: usize) -> (s: String)
    requires
        lo <= hi <= cs.len(),
    ensures
        s@ == cs@.subrange(lo as int, hi as int),
{
    let mut s = String::new();
    let mut i = lo;
    while i < hi
        invariant
            lo <= i <= hi <= cs.len(),
            s@ == cs@.subrange(lo as int, i as int),
        decreases hi - i,
    {
        push_char(&mut s, cs[i]);
        assert(cs@.subrange(lo as int, i + 1) == cs@.subrange(lo as int, i as int).push(cs@[i as int]));
        i += 1;
    }
    s
}

/// Builds a `String` holding exactly the characters of `cs`.
pub fn string_from_chars(cs: &Vec<char>) -> (s: String)
    ensures
        s@ == cs@,
{
    let s = string_from_range(cs, 0, cs.len());
    assert(cs@.subrange(0, cs@.len() as int) == cs@);
    s
}

/// A copy of `s` with the same characters.
pub fn copy_str(s: &str) -> (r: String)
    ensures
        r@ == s@,
{
    let cs = chars_of(s);
    string_from_chars(&cs)
}

/// Whether two strings hold the same characters.
pub fn str_eq(a: &str, b: &str) -> (r: bool)
    ensures
        r == (a@ == b@),
{
    let x = chars_of(a);
    let y = chars_of(b);
    if x.len() != y.len() {
        return false;
    }
    let mut i: usize = 0;
    while i < x.len()
        invariant
            x.len() == y.len(),
            x@ == a@,
            y@ == b@,
            i <= x.len(),
            forall|k: int| 0 <= k < i ==> x@[k] == y@[k],
        decreases x.len() - i,
    {
        if x[i] != y[i] {
            return false;
        }
        i += 1;
    }
    assert(x@ =~= y@);
    true
}

/// Unicode `White_Space`: the characters for which `char::is_whitespace` holds.
pub open spec fn is_white_space(c: char) -> bool {
    let u = c as u32;
    ||| 0x09 <= u <= 0x0D
    ||| u == 0x20
    ||| u == 0x85
    ||| u == 0xA0
    ||| u == 0x1680
    ||| 0x2000 <= u <= 0x200A
    ||| u == 0x2028
    ||| u == 0x2029
    ||| u == 0x202F
    ||| u == 0x205F
    ||| u == 0x3000
}

/// Decides `is_white_space`.
pub fn white_space(c: char) -> (r: bool)
    ensures
        r == is_white_space(c),
{
    let u = c as u32;
    (0x09 <= u && u <= 0x0D) || u == 0x20 || u == 0x85 || u == 0xA0 || u == 0x1680 || (0x2000
        <= u && u <= 0x200A) || u == 0x2028 || u == 0x2029 || u == 0x202F || u == 0x205F || u
        == 0x3000
}

/// `s` without its leading white space.
pub open spec fn trim_start(s: Seq<char>) -> Seq<char>
    decreases s.len(),
{
    if s.len() > 0 && is_white_space(s[0]) {
        trim_start(s.drop_first())
    } else {
        s
    }
}

/// `s` without its trailing white space.
pub open spec fn trim_end(s: Seq<char>) -> Seq<char>
    decreases s.len(),
{
    if s.len() > 0 && is_white_space(s.last()) {
        trim_end(s.drop_last())
    } else {
        s
    }
}

/// What `str::trim` gives back: `s` without white space at either end.
pub open spec fn trimmed(s: Seq<char>) -> Seq<char> {
    trim_end(trim_start(s))
}

/// Whether `s` holds nothing but white space (`s.trim().is_empty()`).
pub open spec fn is_blank(s: Seq<char>) -> bool {
    trimmed(s).len() == 0
}

proof fn lemma_trim_start_skip(s: Seq<char>, lo: int)
    requires
        0 <= lo <= s.len(),
        forall|k: int| 0 <= k < lo ==> is_white_space(s[k]),
        lo == s.len() || !is_white_space(s[lo]),
    ensures
        trim_start(s) == s.skip(lo),
    decreases lo,
{
    if lo == 0 {
        assert(s.skip(0) =~= s);
    } else {
        lemma_trim_start_skip(s.drop_first(), lo - 1);
        assert(s.drop_first().skip(lo - 1) =~= s.skip(lo));
    }
}

proof fn lemma_trim_end_take(s: Seq<char>, hi: int)
    requires
        0 <= hi <= s.len(),
        forall|k: int| hi <= k < s.len() ==> is_white_space(s[k]),
        hi == 0 || !is_white_space(s[hi - 1]),
    ensures
        trim_end(s) == s.take(hi),
    decreases s.len() - hi,
{
    if hi == s.len() {
        assert(s.take(hi) =~= s);
    } else {
        lemma_trim_end_take(s.drop_last(), hi);
        assert(s.drop_last().take(hi) =~= s.take(hi));
    }
}

/// The bounds `[lo, hi)` of `s.trim()` inside `cs`.
fn trim_bounds(cs: &Vec<char>) -> (r: (usize, usize))
    ensures
        r.0 <= r.1 <= cs.len(),
        trimmed(cs@) == cs@.subrange(r.0 as int, r.1 as int),
{
    let mut lo: usize = 0;
    while lo < cs.len() && white_space(cs[lo])
        invariant
            lo <= cs.len(),
            forall|k: int| 0 <= k < lo ==> is_white_space(cs@[k]),
        decreases cs.len() - lo,
    {
        lo += 1;
    }
    proof {
        lemma_trim_start_skip(cs@, lo as int);
    }
    let mut hi: usize = cs.len();
    while hi > lo && white_space(cs[hi - 1])
        invariant
            lo <= hi <= cs.len(),
            forall|k: int| hi <= k < cs.len() ==> is_white_space(cs@[k]),
        decreases hi,
    {
        hi -= 1;
    }
    proof {
        let t = cs@.skip(lo as int);
        lemma_trim_end_take(t, hi - lo);
        assert(t.take(hi - lo) =~= cs@.subrange(lo as int, hi as int));
    }
    (lo, hi)
}

/// `s.trim()`, as an owned string.
pub fn trim_text(s: &str) -> (r: String)
    ensures
        r@ == trimmed(s@),
{
    let cs = chars_of(s);
    let (lo, hi) = trim_bounds(&cs);
    string_from_range(&cs, lo, hi)
}

/// `s.trim().is_empty()`.
pub fn blank(s: &str) -> (r: bool)
    ensures
        r == is_blank(s@),
{
    let cs = chars_of(s);
    let (lo, hi) = trim_bounds(&cs);
    lo == hi
}

/// Folds an ASCII capital letter to lower case; other characters keep their code.
pub open spec fn fold_ascii(c: char) -> u32 {
    let u = c as u32;
    if 0x41 <= u <= 0x5A {
        (u + 32) as u32
    } else {
        u
    }
}

pub fn fold_ascii_exec(c: char) -> (r: u32)
    ensures
        r == fold_ascii(c),
{
    let u = c as u32;
    if 0x41 <= u && u <= 0x5A {
        u + 32
    } else {
        u
    }
}

/// Whether one pattern character of SQLite's `LIKE` matches one text character.
/// With an escape character, `literal` says the pattern character was escaped.
pub open spec fn like_char(p: char, literal: bool, t: char) -> bool {
    (!literal && p == '_') || fold_ascii(p) == fold_ascii(t)
}

/// SQLite's default `LIKE`, on the text from position `i` and the pattern from `j`:
/// `%` matches any run of characters, `_` any one character, and letters match
/// without regard to ASCII case. When `esc` is `Some(e)`, `e` makes the next
/// pattern character literal.
pub open spec fn like_from(t: Seq<char>, p: Seq<char>, esc: Option<char>, i: int, j: int) -> bool
    decreases p.len() - j, t.len() - i,
    when 0 <= i <= t.len() && 0 <= j <= p.len()
{
    if j == p.len() {
        i == t.len()
    } else if esc == Some(p[j]) {
        j + 1 < p.len() && i < t.len() && like_char(p[j + 1], true, t[i]) && like_from(
            t,
            p,
            esc,
            i + 1,
            j + 2,
        )
    } else if p[j] == '%' {
        like_from(t, p, esc, i, j + 1) || (i < t.len() && like_from(t, p, esc, i + 1, j))
    } else {
        i < t.len() && like_char(p[j], false, t[i]) && like_from(t, p, esc, i + 1, j + 1)
    }
}

/// `t LIKE p` (with `ESCAPE esc` when `esc` is `Some`).
pub open spec fn like(t: Seq<char>, p: Seq<char>, esc: Option<char>) -> bool {
    like_from(t, p, esc, 0, 0)
}

/// Decides `like(t, p, esc)` by dynamic programming over pattern positions.
pub fn like_match(t: &Vec<char>, p: &Vec<char>, esc: Option<char>) -> (r: bool)
    ensures
        r == like(t@, p@, esc),
{
    let n = t.len();
    let m = p.len();
    // `row[j]` for `j` in the columns computed so far holds like_from(t, p, esc, i, j)
    // for the current `i`; columns are kept as full vectors over `i`.
    let mut cols: Vec<Vec<bool>> = Vec::new();
    // Build columns for j = m, m-1, ..., 0; cols[k] is column j = m - k.
    let mut k: usize = 0;
    loop
        invariant_except_break
            n == t.len(),
            m == p.len(),
            k <= m,
            cols.len() == k,
            forall|c: int| 0 <= c < k ==> #[trigger] cols@[c]@.len() == n + 1,
            forall|c: int, i: int|
                0 <= c < k && 0 <= i <= n ==> #[trigger] cols@[c]@[i] == like_from(t@, p@, esc, i, m - c),
        ensures
            cols.len() == m + 1,
            forall|c: int| 0 <= c <= m ==> #[trigger] cols@[c]@.len() == n + 1,
            forall|c: int, i: int|
                0 <= c <= m && 0 <= i <= n ==> #[trigger] cols@[c]@[i] == like_from(t@, p@, esc, i, m - c),
        decreases m - k,
    {
        let j = m - k;
        let mut col: Vec<bool> = Vec::new();
        let mut z: usize = 0;
        while z < n
            invariant
                col.len() == z,
                z <= n,
            decreases n - z,
        {
            col.push(false);
            z += 1;
        }
        col.push(false);
        let mut ii: usize = col.len();
        while ii > 0
            invariant
                n == t.len(),
                m == p.len(),
                j == m - k,
                k <= m,
                cols.len() == k,
                forall|c: int| 0 <= c < k ==> #[trigger] cols@[c]@.len() == n + 1,
                forall|c: int, i: int|
                    0 <= c < k && 0 <= i <= n ==> #[trigger] cols@[c]@[i] == like_from(t@, p@, esc, i, m - c),
                col.len() == n + 1,
                ii <= n + 1,
                forall|i: int| ii <= i <= n ==> col@[i] == like_from(t@, p@, esc, i, j as int),
            decreases ii,
        {
            let i = ii - 1;
            let v: bool;
            if j == m {
                v = i == n;
            } else if esc == Some(p[j]) {
                if j + 1 < m && i < n {
                    let prev = &cols[k - 2];
                    assert(prev@[i + 1 as int] == like_from(t@, p@, esc, i + 1, j + 2)) by {
                        assert(0 <= k - 2 < k);
                    }
                    v = fold_ascii_exec(p[j + 1]) == fold_ascii_exec(t[i]) && prev[i + 1];
                } else {
                    v = false;
                }
            } else if p[j] == '%' {
                let prev = &cols[k - 1];
                assert(prev@[i as int] == like_from(t@, p@, esc, i as int, j + 1));
                v = prev[i] || (i < n && col[i + 1]);
            } else {
                let prev = &cols[k - 1];
                v = i < n && (p[j] == '_' || fold_ascii_exec(p[j]) == fold_ascii_exec(t[i]))
                    && prev[i + 1];
                assert(i < n ==> prev@[i + 1 as int] == like_from(t@, p@, esc, i + 1, j + 1));
            }
            col.set(i, v);
            ii = i;
        }
        cols.push(col);
        if k == m {
            break;
        }
        k += 1;
    }
    let last = &cols[m];
    assert(last@[0] == like_from(t@, p@, esc, 0, m - m as int));
    last[0]
}

/// The decimal digits of a natural number.
pub open spec fn nat_digits(n: nat) -> Seq<char>
    decreases n,
{
    if n < 10 {
        seq![(n + 48) as char]
    } else {
        nat_digits(n / 10).push(((n % 10) + 48) as char)
    }
}

/// How an integer is written in decimal (`i64::to_string`): a minus sign for a
/// negative number, then its digits.
pub open spec fn int_text(i: int) -> Seq<char> {
    if i < 0 {
        seq!['-'] + nat_digits((-i) as nat)
    } else {
        nat_digits(i as nat)
    }
}

fn digit_char(d: u64) -> (c: char)
    requires
        d < 10,
    ensures
        c == (d + 48) as char,
{
    if d == 0 { '0' }
    else if d == 1 { '1' }
    else if d == 2 { '2' }
    else if d == 3 { '3' }
    else if d == 4 { '4' }
    else if d == 5 { '5' }
    else if d == 6 { '6' }
    else if d == 7 { '7' }
    else if d == 8 { '8' }
    else { '9' }
}

fn append_digits(out: &mut Vec<char>, n: u64)
    ensures
        final(out)@ == old(out)@ + nat_digits(n as nat),
    decreases n,
{
    if n < 10 {
        out.push(digit_char(n));
        assert(nat_digits(n as nat) =~= seq![(n + 48) as char]);
    } else {
        append_digits(out, n / 10);
        out.push(digit_char(n % 10));
        assert(old(out)@ + nat_digits(n as nat) =~= old(out)@ + nat_digits((n / 10) as nat) + seq![((n % 10) + 48) as char]);
    }
}

/// Appends the decimal text of `x` to `out`.
pub fn push_int_text(out: &mut Vec<char>, x: i64)
    ensures
        final(out)@ == old(out)@ + int_text(x as int),
{
    if x < 0 {
        out.push('-');
        let mag: u64 = if x == i64::MIN {
            9223372036854775808u64
        } else {
            (-x) as u64
        };
        append_digits(out, mag);
        assert(old(out)@ + int_text(x as int) =~= old(out)@.push('-') + nat_digits(mag as nat));
    } else {
        append_digits(out, x as u64);
    }
}

/// `x.to_string()`.
pub fn int_to_text(x: i64) -> (s: String)
    ensures
        s@ == int_text(x as int),
{
    let mut v: Vec<char> = Vec::new();
    push_int_text(&mut v, x);
    assert(v@ =~= int_text(x as int));
    string_from_chars(&v)
}

/// Appends every character of `s` to `out`.
pub fn push_all(out: &mut Vec<char>, s: &str)
    ensures
        final(out)@ == old(out)@ + s@,
{
    let cs = chars_of(s);
    let mut i: usize = 0;
    while i < cs.len()
        invariant
            i <= cs.len(),
            cs@ == s@,
            out@ == old(out)@ + cs@.take(i as int),
        decreases cs.len() - i,
    {
        out.push(cs[i]);
        assert(cs@.take(i + 1) == cs@.take(i as int).push(cs@[i as int]));
        i += 1;
    }
    assert(cs@.take(cs.len() as int) =~= cs@);
}

/// The concatenation `a + b`.
pub fn concat_text(a: &str, b: &str) -> (s: String)
    ensures
        s@ == a@ + b@,
{
    let mut v: Vec<char> = Vec::new();
    push_all(&mut v, a);
    push_all(&mut v, b);
    assert(v@ =~= a@ + b@);
    string_from_chars(&v)
}

/// Whether `c` occurs in `s`.
pub fn has_char(s: &str, c: char) -> (r: bool)
    ensures
        r == s@.contains(c),
{
    let cs = chars_of(s);
    let mut i: usize = 0;
    while i < cs.len()
        invariant
            i <= cs.len(),
            cs@ == s@,
            forall|k: int| 0 <= k < i ==> cs@[k] != c,
        decreases cs.len() - i,
    {
        if cs[i] == c {
            assert(s@[i as int] == c);
            return true;
        }
        i += 1;
    }
    false
}


} // verus!
