//! Character-sequence operations the rest of the library is stated over.
//!
//! Every string is modelled by its view, a `Seq<char>`. The operations here
//! mirror the `str` methods the library relies on (`trim`, `contains`,
//! `find`, `lines`, `replace`, `split`, `join`, ...) and each carries the spec
//! function that says exactly what it returns.

use vstd::prelude::*;

verus! {

// ---------------------------------------------------------------------------
// Character classes
// ---------------------------------------------------------------------------

/// The Unicode `White_Space` property, which `char::is_whitespace` and the
/// `trim` family test.
pub open spec fn is_ws(c: char) -> bool {
    ||| ('\u{9}' <= c && c <= '\u{d}')
    ||| c == ' '
    ||| c == '\u{85}'
    ||| c == '\u{a0}'
    ||| c == '\u{1680}'
    ||| ('\u{2000}' <= c && c <= '\u{200a}')
    ||| c == '\u{2028}'
    ||| c == '\u{2029}'
    ||| c == '\u{202f}'
    ||| c == '\u{205f}'
    ||| c == '\u{3000}'
}

pub fn is_whitespace(c: char) -> (r: bool)
    ensures
        r == is_ws(c),
{
    ('\u{9}' <= c && c <= '\u{d}') || c == ' ' || c == '\u{85}' || c == '\u{a0}' || c
        == '\u{1680}' || ('\u{2000}' <= c && c <= '\u{200a}') || c == '\u{2028}' || c
        == '\u{2029}' || c == '\u{202f}' || c == '\u{205f}' || c == '\u{3000}'
}

/// An ASCII letter or digit.
pub open spec fn ascii_alnum(c: char) -> bool {
    ('a' <= c && c <= 'z') || ('A' <= c && c <= 'Z') || ('0' <= c && c <= '9')
}

/// What `char::is_alphanumeric` answers for a character (Unicode
/// `Alphabetic` or `Numeric`).
pub uninterp spec fn alnum(c: char) -> bool;

/// Wraps `char::is_alphanumeric`. The answer is a fixed function of the
/// character, named by `alnum`; the Unicode tables behind it are not
/// restated here.
///
/// Of ASCII characters the documentation gives more: the ASCII characters
/// that are alphabetic or numeric are exactly the letters and the digits.
#[verifier::external_body]
pub(crate) fn is_alphanumeric(c: char) -> (r: bool)
    ensures
        r == alnum(c),
        (c as u32) < 128 ==> r == ascii_alnum(c),
{
    c.is_alphanumeric()
}

/// ASCII-only lowering, as `to_ascii_lowercase` does it.
pub open spec fn ascii_lower_char(c: char) -> char {
    if 'A' <= c && c <= 'Z' {
        ((c as u32) + 32) as char
    } else {
        c
    }
}

pub open spec fn ascii_lower(s: Seq<char>) -> Seq<char> {
    s.map_values(|c: char| ascii_lower_char(c))
}

pub fn ascii_lower_char_exec(c: char) -> (r: char)
    ensures
        r == ascii_lower_char(c),
{
    if 'A' <= c && c <= 'Z' {
        let u: u32 = c as u32;
        assert(65 <= u <= 90);
        let v: u32 = u + 32;
        assert(97 <= v <= 122);
        let r = char_from_ascii(v);
        r
    } else {
        c
    }
}

fn char_from_ascii(v: u32) -> (r: char)
    requires
        v < 128,
    ensures
        r == v as char,
{
    let b: u8 = v as u8;
    let r: char = b as char;
    assert(r == v as char) by {
        assert(b as u32 == v);
    }
    r
}

pub fn to_ascii_lowercase(s: &Vec<char>) -> (r: Vec<char>)
    ensures
        r@ == ascii_lower(s@),
{
    let mut out: Vec<char> = Vec::new();
    let mut i: usize = 0;
    while i < s.len()
        invariant
            i <= s.len(),
            out@ == ascii_lower(s@.take(i as int)),
        decreases s.len() - i,
    {
        let c = ascii_lower_char_exec(s[i]);
        out.push(c);
        assert(s@.take(i + 1) == s@.take(i as int).push(s@[i as int]));
        i += 1;
    }
    assert(s@.take(s.len() as int) == s@);
    out
}

pub open spec fn trim_start_nonalnum(s: Seq<char>) -> Seq<char>
    decreases s.len(),
{
    if s.len() > 0 && !alnum(s[0]) {
        trim_start_nonalnum(s.drop_first())
    } else {
        s
    }
}

pub open spec fn trim_end_nonalnum(s: Seq<char>) -> Seq<char>
    decreases s.len(),
{
    if s.len() > 0 && !alnum(s.last()) {
        trim_end_nonalnum(s.drop_last())
    } else {
        s
    }
}

/// `trim_matches(|c| !c.is_alphanumeric())`.
pub open spec fn trim_nonalnum(s: Seq<char>) -> Seq<char> {
    trim_end_nonalnum(trim_start_nonalnum(s))
}

pub open spec fn trim_start_ascii_nonalnum(s: Seq<char>) -> Seq<char>
    decreases s.len(),
{
    if s.len() > 0 && !ascii_alnum(s[0]) {
        trim_start_ascii_nonalnum(s.drop_first())
    } else {
        s
    }
}

pub open spec fn trim_end_ascii_nonalnum(s: Seq<char>) -> Seq<char>
    decreases s.len(),
{
    if s.len() > 0 && !ascii_alnum(s.last()) {
        trim_end_ascii_nonalnum(s.drop_last())
    } else {
        s
    }
}

/// What [`trim_nonalnum`] is on ASCII text: every leading and trailing
/// character that is neither an ASCII letter nor a digit removed.
pub open spec fn trim_ascii_nonalnum(s: Seq<char>) -> Seq<char> {
    trim_end_ascii_nonalnum(trim_start_ascii_nonalnum(s))
}

pub fn trim_nonalnum_exec(s: &Vec<char>) -> (r: Vec<char>)
    ensures
        r@ == trim_nonalnum(s@),
        ascii_text(s@) ==> r@ == trim_ascii_nonalnum(s@),
{
    let mut lo: usize = 0;
    assert(s@.skip(0) == s@);
    while lo < s.len() && !is_alphanumeric(s[lo])
        invariant
            lo <= s.len(),
            trim_start_nonalnum(s@) == trim_start_nonalnum(s@.skip(lo as int)),
            ascii_text(s@) ==> trim_start_ascii_nonalnum(s@) == trim_start_ascii_nonalnum(
                s@.skip(lo as int),
            ),
        decreases s.len() - lo,
    {
        assert(s@.skip(lo as int).drop_first() == s@.skip(lo + 1));
        lo += 1;
    }
    let a = slice(s, lo, s.len());
    assert(a@ == s@.skip(lo as int));
    assert(ascii_text(s@) ==> ascii_text(a@));
    let mut hi: usize = a.len();
    assert(a@.take(hi as int) == a@);
    while hi > 0 && !is_alphanumeric(a[hi - 1])
        invariant
            hi <= a.len(),
            trim_end_nonalnum(a@) == trim_end_nonalnum(a@.take(hi as int)),
            ascii_text(a@) ==> trim_end_ascii_nonalnum(a@) == trim_end_ascii_nonalnum(
                a@.take(hi as int),
            ),
        decreases hi,
    {
        assert(a@.take(hi as int).drop_last() == a@.take(hi - 1));
        hi -= 1;
    }
    slice(&a, 0, hi)
}

pub open spec fn trim_start_char(s: Seq<char>, c: char) -> Seq<char>
    decreases s.len(),
{
    if s.len() > 0 && s[0] == c {
        trim_start_char(s.drop_first(), c)
    } else {
        s
    }
}

pub open spec fn trim_end_char(s: Seq<char>, c: char) -> Seq<char>
    decreases s.len(),
{
    if s.len() > 0 && s.last() == c {
        trim_end_char(s.drop_last(), c)
    } else {
        s
    }
}

/// `str::trim_matches(c)`: every leading and trailing `c` removed.
pub open spec fn trim_char(s: Seq<char>, c: char) -> Seq<char> {
    trim_end_char(trim_start_char(s, c), c)
}

pub fn trim_char_exec(s: &Vec<char>, c: char) -> (r: Vec<char>)
    ensures
        r@ == trim_char(s@, c),
{
    let mut lo: usize = 0;
    assert(s@.skip(0) == s@);
    while lo < s.len() && s[lo] == c
        invariant
            lo <= s.len(),
            trim_start_char(s@, c) == trim_start_char(s@.skip(lo as int), c),
        decreases s.len() - lo,
    {
        assert(s@.skip(lo as int).drop_first() == s@.skip(lo + 1));
        lo += 1;
    }
    let a = slice(s, lo, s.len());
    assert(a@ == s@.skip(lo as int));
    let mut hi: usize = a.len();
    assert(a@.take(hi as int) == a@);
    while hi > 0 && a[hi - 1] == c
        invariant
            hi <= a.len(),
            trim_end_char(a@, c) == trim_end_char(a@.take(hi as int), c),
        decreases hi,
    {
        assert(a@.take(hi as int).drop_last() == a@.take(hi - 1));
        hi -= 1;
    }
    slice(&a, 0, hi)
}

// ---------------------------------------------------------------------------
// Conversions between `str`, `String` and `Vec<char>`
// ---------------------------------------------------------------------------

/// The characters of a string slice, in order.
pub fn to_chars(s: &str) -> (r: Vec<char>)
    ensures
        r@ == s@,
{
    let mut out: Vec<char> = Vec::new();
    broadcast use vstd::string::axiom_spec_iter;

    for c in it: s.chars()
        invariant
            it.seq() == s@,
            out@ == s@.take(it.index() as int),
    {
        out.push(c);
    }
    out
}

/// Wraps `String::push`: the string gains one character at its end.
#[verifier::external_body]
fn push_char(s: &mut String, c: char)
    ensures
        final(s)@ == old(s)@.push(c),
{
    s.push(c);
}

/// A `String` holding exactly these characters.
pub fn to_string(v: &Vec<char>) -> (r: String)
    ensures
        r@ == v@,
{
    let mut out = String::new();
    let mut i: usize = 0;
    while i < v.len()
        invariant
            i <= v.len(),
            out@ == v@.take(i as int),
        decreases v.len() - i,
    {
        push_char(&mut out, v[i]);
        assert(v@.take(i + 1) == v@.take(i as int).push(v@[i as int]));
        i += 1;
    }
    assert(v@.take(v.len() as int) == v@);
    out
}

/// The characters of `s[lo..hi]`.
pub fn slice(s: &Vec<char>, lo: usize, hi: usize) -> (r: Vec<char>)
    requires
        lo <= hi <= s.len(),
    ensures
        r@ == s@.subrange(lo as int, hi as int),
{
    let mut out: Vec<char> = Vec::new();
    let mut i: usize = lo;
    while i < hi
        invariant
            lo <= i <= hi <= s.len(),
            out@ == s@.subrange(lo as int, i as int),
        decreases hi - i,
    {
        out.push(s[i]);
        assert(s@.subrange(lo as int, i + 1) == s@.subrange(lo as int, i as int).push(
            s@[i as int],
        ));
        i += 1;
    }
    out
}

/// `a` followed by `b`.
pub fn concat(a: &Vec<char>, b: &Vec<char>) -> (r: Vec<char>)
    ensures
        r@ == a@ + b@,
{
    let mut out = a.clone();
    let mut i: usize = 0;
    while i < b.len()
        invariant
            i <= b.len(),
            out@ == a@ + b@.take(i as int),
        decreases b.len() - i,
    {
        out.push(b[i]);
        assert(b@.take(i + 1) == b@.take(i as int).push(b@[i as int]));
        i += 1;
    }
    assert(b@.take(b.len() as int) == b@);
    out
}

/// Append `b` to `a` in place.
pub fn append(a: &mut Vec<char>, b: &Vec<char>)
    ensures
        final(a)@ == old(a)@ + b@,
{
    let mut i: usize = 0;
    while i < b.len()
        invariant
            i <= b.len(),
            a@ == old(a)@ + b@.take(i as int),
        decreases b.len() - i,
    {
        a.push(b[i]);
        assert(b@.take(i + 1) == b@.take(i as int).push(b@[i as int]));
        i += 1;
    }
    assert(b@.take(b.len() as int) == b@);
}

/// Whether two character sequences are equal.
pub fn chars_eq(a: &Vec<char>, b: &Vec<char>) -> (r: bool)
    ensures
        r == (a@ == b@),
{
    if a.len() != b.len() {
        return false;
    }
    let mut i: usize = 0;
    while i < a.len()
        invariant
            a.len() == b.len(),
            i <= a.len(),
            forall|j: int| 0 <= j < i ==> a@[j] == b@[j],
        decreases a.len() - i,
    {
        if a[i] != b[i] {
            return false;
        }
        i += 1;
    }
    assert(a@ =~= b@);
    true
}

/// The characters of each string, in order.
pub open spec fn string_views(v: Seq<String>) -> Seq<Seq<char>> {
    v.map_values(|s: String| s@)
}

/// `c` occurs nowhere in `s`.
pub open spec fn lacks(s: Seq<char>, c: char) -> bool {
    forall|i: int| 0 <= i < s.len() ==> s[i] != c
}

/// Whether a string slice holds exactly the characters of another.
pub fn str_eq(s: &str, t: &str) -> (r: bool)
    ensures
        r == (s@ == t@),
{
    chars_eq(&to_chars(s), &to_chars(t))
}

// ---------------------------------------------------------------------------
// Trimming
// ---------------------------------------------------------------------------

pub open spec fn trim_end(s: Seq<char>) -> Seq<char>
    decreases s.len(),
{
    if s.len() > 0 && is_ws(s.last()) {
        trim_end(s.drop_last())
    } else {
        s
    }
}

pub open spec fn trim_start(s: Seq<char>) -> Seq<char>
    decreases s.len(),
{
    if s.len() > 0 && is_ws(s[0]) {
        trim_start(s.drop_first())
    } else {
        s
    }
}

/// `str::trim`: white space removed from both ends.
pub open spec fn trim(s: Seq<char>) -> Seq<char> {
    trim_end(trim_start(s))
}

/// The trimmed text is blank exactly when every character is white space.
pub open spec fn is_blank(s: Seq<char>) -> bool {
    trim(s).len() == 0
}

pub proof fn lemma_trim_end_take(s: Seq<char>, k: int)
    requires
        0 < k <= s.len(),
        is_ws(s[k - 1]),
    ensures
        trim_end(s.take(k)) == trim_end(s.take(k - 1)),
{
    assert(s.take(k).drop_last() == s.take(k - 1));
}

pub proof fn lemma_trim_start_skip(s: Seq<char>, k: int)
    requires
        0 <= k < s.len(),
        is_ws(s[k]),
    ensures
        trim_start(s.skip(k)) == trim_start(s.skip(k + 1)),
{
    assert(s.skip(k).drop_first() == s.skip(k + 1));
}

pub fn trim_end_exec(s: &Vec<char>) -> (r: Vec<char>)
    ensures
        r@ == trim_end(s@),
{
    let mut k: usize = s.len();
    assert(s@.take(k as int) == s@);
    while k > 0 && is_whitespace(s[k - 1])
        invariant
            k <= s.len(),
            trim_end(s@) == trim_end(s@.take(k as int)),
        decreases k,
    {
        proof {
            lemma_trim_end_take(s@, k as int);
        }
        k -= 1;
    }
    slice(s, 0, k)
}

pub fn trim_start_exec(s: &Vec<char>) -> (r: Vec<char>)
    ensures
        r@ == trim_start(s@),
{
    let mut k: usize = 0;
    assert(s@.skip(0) == s@);
    while k < s.len() && is_whitespace(s[k])
        invariant
            k <= s.len(),
            trim_start(s@) == trim_start(s@.skip(k as int)),
        decreases s.len() - k,
    {
        proof {
            lemma_trim_start_skip(s@, k as int);
        }
        k += 1;
    }
    let r = slice(s, k, s.len());
    assert(r@ == s@.skip(k as int));
    r
}

pub fn trim_exec(s: &Vec<char>) -> (r: Vec<char>)
    ensures
        r@ == trim(s@),
{
    let a = trim_start_exec(s);
    trim_end_exec(&a)
}

// ---------------------------------------------------------------------------
// Searching
// ---------------------------------------------------------------------------

/// `n` occurs in `h` starting at index `i`.
pub open spec fn matches_at(h: Seq<char>, n: Seq<char>, i: int) -> bool {
    0 <= i && i + n.len() <= h.len() && h.subrange(i, i + n.len()) == n
}

/// The first index at or after `i` where `n` occurs in `h`.
pub open spec fn find_from(h: Seq<char>, n: Seq<char>, i: int) -> Option<int>
    decreases h.len() + 1 - i,
{
    if i < 0 || i + n.len() > h.len() {
        None
    } else if matches_at(h, n, i) {
        Some(i)
    } else {
        find_from(h, n, i + 1)
    }
}

/// `str::find`: the first index of `n` in `h`.
pub open spec fn find(h: Seq<char>, n: Seq<char>) -> Option<int> {
    find_from(h, n, 0)
}

/// `str::contains`.
pub open spec fn contains(h: Seq<char>, n: Seq<char>) -> bool {
    find(h, n) is Some
}

pub open spec fn starts_with(h: Seq<char>, n: Seq<char>) -> bool {
    n.len() <= h.len() && h.take(n.len() as int) == n
}

pub open spec fn ends_with(h: Seq<char>, n: Seq<char>) -> bool {
    n.len() <= h.len() && h.skip(h.len() - n.len()) == n
}

pub proof fn lemma_find_from_bounds(h: Seq<char>, n: Seq<char>, i: int)
    requires
        0 <= i,
    ensures
        find_from(h, n, i) matches Some(j) ==> i <= j && j + n.len() <= h.len() && matches_at(
            h,
            n,
            j,
        ),
        find_from(h, n, i) matches Some(j) ==> forall|k: int| i <= k < j ==> !matches_at(h, n, k),
        find_from(h, n, i) is None ==> forall|k: int| i <= k ==> !matches_at(h, n, k),
    decreases h.len() + 1 - i,
{
    if i + n.len() > h.len() {
    } else if matches_at(h, n, i) {
    } else {
        lemma_find_from_bounds(h, n, i + 1);
    }
}

/// Contains is the existence of a match position.
pub proof fn lemma_contains_iff(h: Seq<char>, n: Seq<char>)
    ensures
        contains(h, n) <==> exists|k: int| matches_at(h, n, k),
{
    lemma_find_from_bounds(h, n, 0);
    if contains(h, n) {
        let j = find(h, n)->0;
        assert(matches_at(h, n, j));
    }
}

pub fn matches_at_exec(h: &Vec<char>, n: &Vec<char>, i: usize) -> (r: bool)
    ensures
        r == matches_at(h@, n@, i as int),
{
    if i > h.len() || n.len() > h.len() - i {
        return false;
    }
    let mut j: usize = 0;
    while j < n.len()
        invariant
            i + n.len() <= h.len(),
            j <= n.len(),
            forall|k: int| 0 <= k < j ==> h@[i + k] == n@[k],
        decreases n.len() - j,
    {
        if h[i + j] != n[j] {
            assert(h@.subrange(i as int, i + n.len())[j as int] != n@[j as int]);
            return false;
        }
        j += 1;
    }
    assert(h@.subrange(i as int, i + n.len()) =~= n@);
    true
}

pub fn find_from_exec(h: &Vec<char>, n: &Vec<char>, start: usize) -> (r: Option<usize>)
    ensures
        match r {
            Some(j) => find_from(h@, n@, start as int) == Some(j as int),
            None => find_from(h@, n@, start as int) is None,
        },
{
    let mut i: usize = start;
    while i <= h.len() && n.len() <= h.len() - i
        invariant
            start <= i,
            find_from(h@, n@, start as int) == find_from(h@, n@, i as int),
        decreases h.len() + 1 - i,
    {
        if matches_at_exec(h, n, i) {
            return Some(i);
        }
        proof {
            if i == h.len() {
                assert(h@.subrange(i as int, i as int) =~= n@);
            }
        }
        i += 1;
    }
    None
}

pub fn find_exec(h: &Vec<char>, n: &Vec<char>) -> (r: Option<usize>)
    ensures
        match r {
            Some(j) => find(h@, n@) == Some(j as int),
            None => find(h@, n@) is None,
        },
{
    find_from_exec(h, n, 0)
}

pub fn contains_exec(h: &Vec<char>, n: &Vec<char>) -> (r: bool)
    ensures
        r == contains(h@, n@),
{
    match find_exec(h, n) {
        Some(_) => true,
        None => false,
    }
}

pub fn starts_with_exec(h: &Vec<char>, n: &Vec<char>) -> (r: bool)
    ensures
        r == starts_with(h@, n@),
{
    let m = matches_at_exec(h, n, 0);
    proof {
        if n@.len() <= h@.len() {
            assert(h@.subrange(0, n@.len() as int) == h@.take(n@.len() as int));
        }
    }
    m
}

pub fn ends_with_exec(h: &Vec<char>, n: &Vec<char>) -> (r: bool)
    ensures
        r == ends_with(h@, n@),
{
    if n.len() > h.len() {
        return false;
    }
    let m = matches_at_exec(h, n, h.len() - n.len());
    proof {
        assert(h@.subrange(h@.len() - n@.len(), h@.len() as int) == h@.skip(
            h@.len() - n@.len(),
        ));
    }
    m
}

/// The first index at or after `i` holding `c`, or `s.len()` when there is none.
pub open spec fn char_pos(s: Seq<char>, c: char, i: int) -> int
    decreases s.len() - i,
{
    if i < 0 || i >= s.len() {
        s.len() as int
    } else if s[i] == c {
        i
    } else {
        char_pos(s, c, i + 1)
    }
}

pub proof fn lemma_char_pos(s: Seq<char>, c: char, i: int)
    requires
        0 <= i <= s.len(),
    ensures
        i <= char_pos(s, c, i) <= s.len(),
        char_pos(s, c, i) < s.len() ==> s[char_pos(s, c, i)] == c,
        forall|k: int| i <= k < char_pos(s, c, i) ==> s[k] != c,
    decreases s.len() - i,
{
    if i < s.len() && s[i] != c {
        lemma_char_pos(s, c, i + 1);
    }
}

pub fn char_pos_exec(s: &Vec<char>, c: char, start: usize) -> (r: usize)
    requires
        start <= s.len(),
    ensures
        r as int == char_pos(s@, c, start as int),
        start <= r <= s.len(),
{
    proof {
        lemma_char_pos(s@, c, start as int);
    }
    let mut i: usize = start;
    while i < s.len() && s[i] != c
        invariant
            start <= i <= s.len(),
            char_pos(s@, c, start as int) == char_pos(s@, c, i as int),
        decreases s.len() - i,
    {
        i += 1;
    }
    i
}

// ---------------------------------------------------------------------------
// Splitting and joining
// ---------------------------------------------------------------------------

pub open spec fn strip_cr(l: Seq<char>) -> Seq<char> {
    if l.len() > 0 && l.last() == '\r' {
        l.drop_last()
    } else {
        l
    }
}

/// `str::lines`: split at `\n`, each terminated line losing a `\r` before its
/// `\n`; a final line ending adds no empty line.
pub open spec fn lines(s: Seq<char>) -> Seq<Seq<char>>
    decreases s.len(),
{
    if s.len() == 0 {
        seq![]
    } else {
        let p = char_pos(s, '\n', 0);
        if p >= s.len() {
            seq![s]
        } else {
            proof {
                lemma_char_pos(s, '\n', 0);
            }
            seq![strip_cr(s.take(p))] + lines(s.skip(p + 1))
        }
    }
}

/// `str::split` on one character: every piece, including empty ones.
pub open spec fn split_char(s: Seq<char>, c: char) -> Seq<Seq<char>>
    decreases s.len(),
{
    let p = char_pos(s, c, 0);
    if p >= s.len() {
        seq![s]
    } else {
        proof {
            lemma_char_pos(s, c, 0);
        }
        seq![s.take(p)] + split_char(s.skip(p + 1), c)
    }
}

/// `join` with a separator.
pub open spec fn join(ls: Seq<Seq<char>>, sep: Seq<char>) -> Seq<char>
    decreases ls.len(),
{
    if ls.len() == 0 {
        seq![]
    } else if ls.len() == 1 {
        ls[0]
    } else {
        join(ls.drop_last(), sep) + sep + ls.last()
    }
}

pub fn strip_cr_exec(l: Vec<char>) -> (r: Vec<char>)
    ensures
        r@ == strip_cr(l@),
{
    let mut l = l;
    if l.len() > 0 && l[l.len() - 1] == '\r' {
        l.pop();
    }
    l
}

pub fn lines_exec(s: &Vec<char>) -> (r: Vec<Vec<char>>)
    ensures
        r@.len() == lines(s@).len(),
        forall|i: int| 0 <= i < r@.len() ==> #[trigger] r@[i]@ == lines(s@)[i],
{
    let mut out: Vec<Vec<char>> = Vec::new();
    let mut pos: usize = 0;
    assert(s@.skip(0) == s@);
    while pos < s.len()
        invariant
            pos <= s.len(),
            out@.len() + lines(s@.skip(pos as int)).len() == lines(s@).len(),
            forall|i: int| 0 <= i < out@.len() ==> #[trigger] out@[i]@ == lines(s@)[i],
            forall|i: int|
                0 <= i < lines(s@.skip(pos as int)).len() ==> lines(s@)[out@.len() + i]
                    == #[trigger] lines(s@.skip(pos as int))[i],
        decreases s.len() - pos,
    {
        let ghost rest = s@.skip(pos as int);
        let p = char_pos_exec(s, '\n', pos);
        proof {
            lemma_char_pos(s@, '\n', pos as int);
            lemma_char_pos(rest, '\n', 0);
            lemma_char_pos_shift(s@, '\n', pos as int);
        }
        let line = slice(s, pos, p);
        let ghost old_out = out@;
        if p >= s.len() {
            assert(line@ == rest);
            out.push(line);
            proof {
                assert(lines(rest) == seq![rest]);
                assert forall|i: int| 0 <= i < out@.len() implies #[trigger] out@[i]@ == lines(
                    s@,
                )[i] by {
                    if i < old_out.len() {
                        assert(out@[i] == old_out[i]);
                    } else {
                        assert(lines(s@)[old_out.len() as int] == lines(rest)[0]);
                    }
                }
            }
            pos = s.len();
            assert(s@.skip(pos as int).len() == 0);
            assert(lines(s@.skip(pos as int)) =~= Seq::<Seq<char>>::empty());
        } else {
            let line = strip_cr_exec(line);
            let ghost tail = s@.skip(p + 1);
            proof {
                assert(rest.take(p - pos) == s@.subrange(pos as int, p as int));
                assert(rest.skip(p - pos + 1) == tail);
                assert(lines(rest) == seq![strip_cr(rest.take(p - pos))] + lines(tail));
            }
            out.push(line);
            pos = p + 1;
            proof {
                assert forall|i: int| 0 <= i < out@.len() implies #[trigger] out@[i]@ == lines(
                    s@,
                )[i] by {
                    if i < old_out.len() {
                        assert(out@[i] == old_out[i]);
                    } else {
                        assert(lines(s@)[old_out.len() as int] == lines(rest)[0]);
                    }
                }
                assert forall|i: int| 0 <= i < lines(s@.skip(pos as int)).len() implies lines(
                    s@,
                )[out@.len() + i] == #[trigger] lines(s@.skip(pos as int))[i] by {
                    assert(lines(rest)[i + 1] == lines(tail)[i]);
                    assert(lines(s@)[old_out.len() + (i + 1)] == lines(rest)[i + 1]);
                }
            }
        }
    }
    proof {
        assert(s@.skip(pos as int).len() == 0);
        assert(lines(s@.skip(pos as int)).len() == 0);
    }
    out
}

/// The first `c` at or after `i` is at `p` when `p` holds one and nothing
/// between does.
pub proof fn lemma_char_pos_at(s: Seq<char>, c: char, i: int, p: int)
    requires
        0 <= i <= p < s.len(),
        s[p] == c,
        forall|j: int| i <= j < p ==> s[j] != c,
    ensures
        char_pos(s, c, i) == p,
    decreases p - i,
{
    if i < p {
        lemma_char_pos_at(s, c, i + 1, p);
    }
}

/// With no `c` at or after `i`, the search runs to the end.
pub proof fn lemma_char_pos_none(s: Seq<char>, c: char, i: int)
    requires
        0 <= i <= s.len(),
        forall|j: int| i <= j < s.len() ==> s[j] != c,
    ensures
        char_pos(s, c, i) == s.len(),
    decreases s.len() - i,
{
    if i < s.len() {
        lemma_char_pos_none(s, c, i + 1);
    }
}

pub proof fn lemma_char_pos_shift(s: Seq<char>, c: char, k: int)
    requires
        0 <= k <= s.len(),
    ensures
        char_pos(s, c, k) - k == char_pos(s.skip(k), c, 0),
{
    lemma_char_pos(s, c, k);
    lemma_char_pos(s.skip(k), c, 0);
    let a = char_pos(s, c, k);
    let b = char_pos(s.skip(k), c, 0);
    if a - k < b {
        assert(s.skip(k)[a - k] == s[a]);
    } else if a - k > b {
        assert(s.skip(k)[b] == s[b + k]);
    }
}

pub fn split_char_exec(s: &Vec<char>, c: char) -> (r: Vec<Vec<char>>)
    ensures
        r@.len() == split_char(s@, c).len(),
        forall|i: int| 0 <= i < r@.len() ==> #[trigger] r@[i]@ == split_char(s@, c)[i],
{
    let mut out: Vec<Vec<char>> = Vec::new();
    let mut pos: usize = 0;
    assert(s@.skip(0) == s@);
    loop
        invariant
            pos <= s.len(),
            out@.len() + split_char(s@.skip(pos as int), c).len() == split_char(s@, c).len(),
            forall|i: int| 0 <= i < out@.len() ==> #[trigger] out@[i]@ == split_char(s@, c)[i],
            forall|i: int|
                0 <= i < split_char(s@.skip(pos as int), c).len() ==> split_char(s@, c)[out@.len()
                    + i] == #[trigger] split_char(s@.skip(pos as int), c)[i],
        decreases s.len() - pos,
    {
        let ghost rest = s@.skip(pos as int);
        let p = char_pos_exec(s, c, pos);
        proof {
            lemma_char_pos(s@, c, pos as int);
            lemma_char_pos(rest, c, 0);
            lemma_char_pos_shift(s@, c, pos as int);
        }
        let piece = slice(s, pos, p);
        let ghost old_out = out@;
        if p >= s.len() {
            assert(piece@ == rest);
            out.push(piece);
            proof {
                assert(split_char(rest, c) == seq![rest]);
                assert forall|i: int| 0 <= i < out@.len() implies #[trigger] out@[i]@
                    == split_char(s@, c)[i] by {
                    if i < old_out.len() {
                        assert(out@[i] == old_out[i]);
                    } else {
                        assert(split_char(s@, c)[old_out.len() as int] == split_char(rest, c)[0]);
                    }
                }
            }
            return out;
        } else {
            let ghost tail = s@.skip(p + 1);
            proof {
                assert(rest.take(p - pos) == s@.subrange(pos as int, p as int));
                assert(rest.skip(p - pos + 1) == tail);
                assert(split_char(rest, c) == seq![rest.take(p - pos)] + split_char(tail, c));
            }
            out.push(piece);
            pos = p + 1;
            proof {
                assert forall|i: int| 0 <= i < out@.len() implies #[trigger] out@[i]@
                    == split_char(s@, c)[i] by {
                    if i < old_out.len() {
                        assert(out@[i] == old_out[i]);
                    } else {
                        assert(split_char(s@, c)[old_out.len() as int] == split_char(rest, c)[0]);
                    }
                }
                assert forall|i: int| 0 <= i < split_char(s@.skip(pos as int), c).len() implies split_char(
                    s@,
                    c,
                )[out@.len() + i] == #[trigger] split_char(s@.skip(pos as int), c)[i] by {
                    assert(split_char(rest, c)[i + 1] == split_char(tail, c)[i]);
                    assert(split_char(s@, c)[old_out.len() + (i + 1)] == split_char(rest, c)[i
                        + 1]);
                }
            }
        }
    }
}

pub fn join_exec(ls: &Vec<Vec<char>>, sep: &Vec<char>) -> (r: Vec<char>)
    ensures
        r@ == join(ls@.map_values(|v: Vec<char>| v@), sep@),
{
    let ghost views = ls@.map_values(|v: Vec<char>| v@);
    let mut out: Vec<char> = Vec::new();
    let mut i: usize = 0;
    while i < ls.len()
        invariant
            i <= ls.len(),
            views == ls@.map_values(|v: Vec<char>| v@),
            out@ == join(views.take(i as int), sep@),
        decreases ls.len() - i,
    {
        if i > 0 {
            append(&mut out, sep);
        }
        append(&mut out, &ls[i]);
        proof {
            let t = views.take(i + 1);
            assert(t.drop_last() == views.take(i as int));
            assert(t.last() == ls@[i as int]@);
            if i == 0 {
                assert(t.len() == 1);
            }
        }
        i += 1;
    }
    assert(views.take(ls.len() as int) == views);
    out
}

} // verus!

verus! {

// ---------------------------------------------------------------------------
// Case, replacement, counting, numbers
// ---------------------------------------------------------------------------

/// What `str::to_lowercase` returns for a text (full Unicode lowering, which
/// can change the length of the text).
pub uninterp spec fn lowercase(s: Seq<char>) -> Seq<char>;

/// Wraps `str::to_lowercase`. The result is a fixed function of the text,
/// named by `lowercase`; the Unicode case tables are not restated.
///
/// Of ASCII text the documentation gives more: `to_lowercase` lowers ASCII
/// characters as `to_ascii_lowercase` does, `A`..`Z` to `a`..`z`, and leaves
/// every other ASCII character as it is.
#[verifier::external_body]
fn to_lowercase(s: &str) -> (r: String)
    ensures
        r@ == lowercase(s@),
        ascii_text(s@) ==> r@ == ascii_lower(s@),
{
    s.to_lowercase()
}

/// Every character of the text is ASCII.
pub open spec fn ascii_text(s: Seq<char>) -> bool {
    forall|i: int| 0 <= i < s.len() ==> (s[i] as u32) < 128
}

pub fn lower_exec(s: &Vec<char>) -> (r: Vec<char>)
    ensures
        r@ == lowercase(s@),
        ascii_text(s@) ==> r@ == ascii_lower(s@),
{
    let st = to_string(s);
    let low = to_lowercase(st.as_str());
    to_chars(low.as_str())
}

/// `str::replace`: every non-overlapping occurrence of `from`, left to right,
/// replaced by `to`. Only ever used with a non-empty `from`.
pub open spec fn replace_all(s: Seq<char>, from: Seq<char>, to: Seq<char>) -> Seq<char>
    decreases s.len(),
{
    if from.len() == 0 {
        s
    } else {
        match find(s, from) {
            None => s,
            Some(i) => {
                proof {
                    lemma_find_from_bounds(s, from, 0);
                }
                s.take(i) + to + replace_all(s.skip(i + from.len()), from, to)
            },
        }
    }
}

pub fn replace_exec(s: &Vec<char>, from: &Vec<char>, to: &Vec<char>) -> (r: Vec<char>)
    ensures
        r@ == replace_all(s@, from@, to@),
{
    if from.len() == 0 {
        return s.clone();
    }
    let mut out: Vec<char> = Vec::new();
    let mut rest: Vec<char> = s.clone();
    while rest.len() > 0
        invariant
            from@.len() > 0,
            out@ + replace_all(rest@, from@, to@) == replace_all(s@, from@, to@),
        decreases rest.len(),
    {
        match find_exec(&rest, from) {
            None => {
                append(&mut out, &rest);
                return out;
            },
            Some(i) => {
                proof {
                    lemma_find_from_bounds(rest@, from@, 0);
                }
                let head = slice(&rest, 0, i);
                append(&mut out, &head);
                append(&mut out, to);
                let next = slice(&rest, i + from.len(), rest.len());
                proof {
                    assert(head@ == rest@.take(i as int));
                    assert(next@ == rest@.skip(i + from@.len()));
                }
                rest = next;
            },
        }
    }
    proof {
        assert(replace_all(rest@, from@, to@) == rest@);
        assert(rest@ =~= Seq::<char>::empty());
    }
    out
}


/// How many times `c` occurs in `s`.
pub open spec fn count_char(s: Seq<char>, c: char) -> nat
    decreases s.len(),
{
    if s.len() == 0 {
        0
    } else {
        count_char(s.drop_last(), c) + if s.last() == c {
            1nat
        } else {
            0nat
        }
    }
}

pub fn count_char_exec(s: &Vec<char>, c: char) -> (r: usize)
    ensures
        r == count_char(s@, c),
{
    let mut n: usize = 0;
    let mut i: usize = 0;
    while i < s.len()
        invariant
            i <= s.len(),
            n == count_char(s@.take(i as int), c),
            n <= i,
        decreases s.len() - i,
    {
        assert(s@.take(i + 1).drop_last() == s@.take(i as int));
        if s[i] == c {
            n += 1;
        }
        i += 1;
    }
    assert(s@.take(s.len() as int) == s@);
    n
}

pub open spec fn digit_char(d: nat) -> char {
    if d == 0 { '0' }
    else if d == 1 { '1' }
    else if d == 2 { '2' }
    else if d == 3 { '3' }
    else if d == 4 { '4' }
    else if d == 5 { '5' }
    else if d == 6 { '6' }
    else if d == 7 { '7' }
    else if d == 8 { '8' }
    else { '9' }
}

/// The decimal digits of `n`, as `Display` writes an unsigned integer.
pub open spec fn decimal(n: nat) -> Seq<char>
    decreases n,
{
    if n < 10 {
        seq![digit_char(n)]
    } else {
        decimal(n / 10).push(digit_char(n % 10))
    }
}

fn digit_char_exec(d: u128) -> (r: char)
    requires
        d < 10,
    ensures
        r == digit_char(d as nat),
{
    if d == 0 { '0' }
    else if d == 1 { '1' }
    else if d == 2 { '2' }
    else if d == 3 { '3' }
    else if d == 4 { '4' }
    else if d == 5 { '5' }
    else if d == 6 { '6' }
    else if d == 7 { '7' }
    else if d == 8 { '8' }
    else { '9' }
}

pub fn decimal_exec(n: u128) -> (r: Vec<char>)
    ensures
        r@ == decimal(n as nat),
    decreases n,
{
    if n < 10 {
        let mut v: Vec<char> = Vec::new();
        v.push(digit_char_exec(n));
        assert(v@ == seq![digit_char(n as nat)]);
        v
    } else {
        let mut v = decimal_exec(n / 10);
        v.push(digit_char_exec(n % 10));
        v
    }
}

// ---------------------------------------------------------------------------
// Splitting on a separator and on whitespace
// ---------------------------------------------------------------------------

/// `str::split(sep)` for a non-empty separator: the pieces between
/// occurrences, left to right.
pub open spec fn split_on(s: Seq<char>, sep: Seq<char>) -> Seq<Seq<char>>
    decreases s.len(),
{
    if sep.len() == 0 {
        seq![s]
    } else {
        match find(s, sep) {
            None => seq![s],
            Some(i) => {
                proof {
                    lemma_find_from_bounds(s, sep, 0);
                }
                seq![s.take(i)] + split_on(s.skip(i + sep.len()), sep)
            },
        }
    }
}

pub fn split_on_exec(s: &Vec<char>, sep: &Vec<char>) -> (r: Vec<Vec<char>>)
    requires
        sep@.len() > 0,
    ensures
        r@.map_values(|v: Vec<char>| v@) == split_on(s@, sep@),
{
    let mut out: Vec<Vec<char>> = Vec::new();
    let mut rest: Vec<char> = s.clone();
    loop
        invariant
            sep@.len() > 0,
            out@.map_values(|v: Vec<char>| v@) + split_on(rest@, sep@) == split_on(s@, sep@),
        decreases rest.len(),
    {
        let ghost before = out@.map_values(|v: Vec<char>| v@);
        match find_exec(&rest, sep) {
            None => {
                out.push(rest);
                assert(out@.map_values(|v: Vec<char>| v@) =~= before.push(rest@));
                assert(split_on(rest@, sep@) == seq![rest@]);
                assert(before + seq![rest@] =~= before.push(rest@));
                return out;
            },
            Some(i) => {
                proof {
                    lemma_find_from_bounds(rest@, sep@, 0);
                }
                let head = slice(&rest, 0, i);
                let next = slice(&rest, i + sep.len(), rest.len());
                assert(head@ == rest@.take(i as int));
                assert(next@ == rest@.skip(i + sep@.len()));
                assert(split_on(rest@, sep@) == seq![head@] + split_on(next@, sep@));
                out.push(head);
                assert(out@.map_values(|v: Vec<char>| v@) =~= before.push(head@));
                assert(before.push(head@) + split_on(next@, sep@) =~= before + (seq![head@]
                    + split_on(next@, sep@)));
                rest = next;
            },
        }
    }
}

/// `str::split_once(sep)`: the text before and after the first occurrence.
pub open spec fn split_once(s: Seq<char>, sep: Seq<char>) -> Option<(Seq<char>, Seq<char>)> {
    match find(s, sep) {
        None => None,
        Some(i) => Some((s.take(i), s.skip(i + sep.len()))),
    }
}

pub fn split_once_exec(s: &Vec<char>, sep: &Vec<char>) -> (r: Option<(Vec<char>, Vec<char>)>)
    ensures
        match r {
            None => split_once(s@, sep@) is None,
            Some((a, b)) => split_once(s@, sep@) == Some((a@, b@)),
        },
{
    match find_exec(s, sep) {
        None => None,
        Some(i) => {
            proof {
                lemma_find_from_bounds(s@, sep@, 0);
                assert(find_from(s@, sep@, 0) == Some(i as int));
                assert(i + sep@.len() <= s@.len());
            }
            let a = slice(s, 0, i);
            assert(i + sep.len() <= s.len());
            let b = slice(s, i + sep.len(), s.len());
            assert(a@ == s@.take(i as int));
            assert(b@ == s@.skip(i + sep@.len()));
            Some((a, b))
        },
    }
}

/// The pieces of a text between whitespace characters, empty ones included.
pub open spec fn ws_pieces(s: Seq<char>) -> Seq<Seq<char>>
    decreases s.len(),
{
    if s.len() == 0 {
        seq![Seq::<char>::empty()]
    } else {
        let w = ws_pieces(s.drop_last());
        if is_ws(s.last()) {
            w.push(Seq::<char>::empty())
        } else {
            w.drop_last().push(w.last().push(s.last()))
        }
    }
}

pub open spec fn non_empty() -> spec_fn(Seq<char>) -> bool {
    |t: Seq<char>| t.len() > 0
}

/// `split_whitespace().collect::<Vec<_>>().join(" ")`: every run of
/// whitespace becomes one space, and none leads or trails.
pub open spec fn squash_ws(s: Seq<char>) -> Seq<char> {
    join(ws_pieces(s).filter(non_empty()), " "@)
}

proof fn lemma_ws_pieces_nonempty(s: Seq<char>)
    ensures
        ws_pieces(s).len() >= 1,
    decreases s.len(),
{
    if s.len() > 0 {
        lemma_ws_pieces_nonempty(s.drop_last());
    }
}

pub fn squash_ws_exec(s: &Vec<char>) -> (r: Vec<char>)
    ensures
        r@ == squash_ws(s@),
{
    let mut done: Vec<Vec<char>> = Vec::new();
    let mut cur: Vec<char> = Vec::new();
    let mut i: usize = 0;
    assert(s@.take(0) =~= Seq::<char>::empty());
    while i < s.len()
        invariant
            i <= s@.len(),
            done@.map_values(|v: Vec<char>| v@).push(cur@) == ws_pieces(s@.take(i as int)),
        decreases s.len() - i,
    {
        let c = s[i];
        let ghost prev = s@.take(i as int);
        assert(s@.take(i + 1).drop_last() == prev);
        assert(s@.take(i + 1).last() == c);
        proof {
            lemma_ws_pieces_nonempty(prev);
        }
        if is_whitespace(c) {
            let ghost before = done@.map_values(|v: Vec<char>| v@);
            let finished = cur;
            done.push(finished);
            cur = Vec::new();
            assert(done@.map_values(|v: Vec<char>| v@) =~= before.push(finished@));
            assert(done@.map_values(|v: Vec<char>| v@).push(cur@) =~= ws_pieces(s@.take(i + 1)));
        } else {
            cur.push(c);
            assert(done@.map_values(|v: Vec<char>| v@).push(cur@) =~= ws_pieces(s@.take(i + 1)));
        }
        i += 1;
    }
    assert(s@.take(s@.len() as int) == s@);
    done.push(cur);
    let ghost ps = ws_pieces(s@);
    assert(done@.map_values(|v: Vec<char>| v@) == ps);
    let mut kept: Vec<Vec<char>> = Vec::new();
    let mut k: usize = 0;
    while k < done.len()
        invariant
            k <= done@.len(),
            done@.map_values(|v: Vec<char>| v@) == ps,
            kept@.map_values(|v: Vec<char>| v@) == ps.take(k as int).filter(non_empty()),
        decreases done.len() - k,
    {
        let ghost prev = kept@.map_values(|v: Vec<char>| v@);
        proof {
            reveal_with_fuel(Seq::<_>::filter, 1);
            assert(ps.take(k + 1).drop_last() == ps.take(k as int));
            assert(ps.take(k + 1).last() == ps[k as int]);
            assert(ps[k as int] == done@[k as int]@);
        }
        if done[k].len() > 0 {
            kept.push(done[k].clone());
            assert(kept@.map_values(|v: Vec<char>| v@) =~= prev.push(done@[k as int]@));
        }
        k += 1;
    }
    assert(ps.take(done@.len() as int) == ps);
    join_exec(&kept, &to_chars(" "))
}

} // verus!
