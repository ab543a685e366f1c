//! Character-level helpers that the rest of the library builds on.
//!
//! Text is handled as `Seq<char>` in specifications; executable code works on
//! `Vec<char>` and converts at the edges with [`chars_of`] and [`string_from`].
use vstd::prelude::*;

verus! {

/// The characters of `s`, in order.
///
/// Trusted: `str::chars` collected into a `Vec`; the iterator yields exactly
/// the characters of `s`, so the vector's view is the string's view.
#[verifier::external_body]
pub(crate) fn chars_of(s: &str) -> (r: Vec<char>)
    ensures
        r@ == s@,
{
    s.chars().collect()
}

/// Trusted: `String::push` appends one character at the end.
#[verifier::external_body]
pub(crate) fn push_char(s: &mut String, c: char)
    ensures
        final(s)@ == old(s)@.push(c),
{
    s.push(c)
}

/// What `str::to_lowercase` returns for a string with these characters.
pub uninterp spec fn spec_to_lowercase(s: Seq<char>) -> Seq<char>;

/// Trusted: `str::to_lowercase`, Unicode lowercasing.  Its result is named by
/// [`spec_to_lowercase`]; nothing more about the mapping is claimed.
#[verifier::external_body]
pub(crate) fn to_lowercase(s: &str) -> (r: String)
    ensures
        r@ == spec_to_lowercase(s@),
{
    s.to_lowercase()
}

/// A `String` holding exactly the characters of `cs`.
pub fn string_from(cs: &Vec<char>) -> (r: String)
    ensures
        r@ == cs@,
{
    let mut r = String::new();
    let mut i: usize = 0;
    while i < cs.len()
        invariant
            i <= cs.len(),
            r@ == cs@.subrange(0, i as int),
        decreases cs.len() - i,
    {
        push_char(&mut r, cs[i]);
        i = i + 1;
        assert(r@ =~= cs@.subrange(0, i as int));
    }
    assert(r@ =~= cs@);
    r
}

/// Rust's `char::is_whitespace`: the Unicode `White_Space` property.
pub open spec fn is_white_space(c: char) -> bool {
    let u = c as u32;
    ||| 0x09 <= u <= 0x0d
    ||| u == 0x20
    ||| u == 0x85
    ||| u == 0xa0
    ||| u == 0x1680
    ||| 0x2000 <= u <= 0x200a
    ||| u == 0x2028
    ||| u == 0x2029
    ||| u == 0x202f
    ||| u == 0x205f
    ||| u == 0x3000
}

fn white_space(c: char) -> (r: bool)
    ensures
        r == is_white_space(c),
{
    let u = c as u32;
    (0x09 <= u && u <= 0x0d) || u == 0x20 || u == 0x85 || u == 0xa0 || u == 0x1680 || (0x2000
        <= u && u <= 0x200a) || u == 0x2028 || u == 0x2029 || u == 0x202f || u == 0x205f || u
        == 0x3000
}

/// The index of the first non-whitespace character at or after `i`.
pub open spec fn skip_white_from(s: Seq<char>, i: int) -> int
    decreases s.len() - i,
{
    if 0 <= i < s.len() && is_white_space(s[i]) {
        skip_white_from(s, i + 1)
    } else {
        i
    }
}

/// The end of `s[lo..j]` once trailing whitespace is dropped.
pub open spec fn back_white_from(s: Seq<char>, lo: int, j: int) -> int
    decreases j - lo,
{
    if lo < j <= s.len() && is_white_space(s[j - 1]) {
        back_white_from(s, lo, j - 1)
    } else {
        j
    }
}

/// `str::trim`: `s` without its leading and trailing whitespace.
pub open spec fn trimmed(s: Seq<char>) -> Seq<char> {
    let lo = skip_white_from(s, 0);
    s.subrange(lo, back_white_from(s, lo, s.len() as int))
}

proof fn lemma_skip_white_bounds(s: Seq<char>, i: int)
    requires
        0 <= i <= s.len(),
    ensures
        i <= skip_white_from(s, i) <= s.len(),
    decreases s.len() - i,
{
    if i < s.len() && is_white_space(s[i]) {
        lemma_skip_white_bounds(s, i + 1);
    }
}

proof fn lemma_back_white_bounds(s: Seq<char>, lo: int, j: int)
    requires
        0 <= lo <= j <= s.len(),
    ensures
        lo <= back_white_from(s, lo, j) <= j,
    decreases j - lo,
{
    if lo < j && is_white_space(s[j - 1]) {
        lemma_back_white_bounds(s, lo, j - 1);
    }
}

/// The characters of `s` with leading and trailing whitespace removed.
pub fn trim(s: &Vec<char>) -> (r: Vec<char>)
    ensures
        r@ == trimmed(s@),
{
    let n = s.len();
    let mut lo: usize = 0;
    while lo < n && white_space(s[lo])
        invariant
            lo <= n,
            n == s@.len(),
            skip_white_from(s@, 0) == skip_white_from(s@, lo as int),
        decreases n - lo,
    {
        lo = lo + 1;
    }
    let mut hi: usize = n;
    while hi > lo && white_space(s[hi - 1])
        invariant
            lo <= hi <= n,
            n == s@.len(),
            lo == skip_white_from(s@, 0),
            back_white_from(s@, lo as int, n as int) == back_white_from(s@, lo as int, hi as int),
        decreases hi,
    {
        hi = hi - 1;
    }
    slice_of(s, lo, hi)
}

/// `s[lo..hi]` as a new vector.
pub fn slice_of(s: &Vec<char>, lo: usize, hi: usize) -> (r: Vec<char>)
    requires
        lo <= hi <= s.len(),
    ensures
        r@ == s@.subrange(lo as int, hi as int),
{
    let mut r: Vec<char> = Vec::new();
    let mut i: usize = lo;
    while i < hi
        invariant
            lo <= i <= hi <= s.len(),
            r@ == s@.subrange(lo as int, i as int),
        decreases hi - i,
    {
        r.push(s[i]);
        i = i + 1;
        assert(r@ =~= s@.subrange(lo as int, i as int));
    }
    r
}

/// `p` is a prefix of `s`.
pub open spec fn has_prefix(s: Seq<char>, p: Seq<char>) -> bool {
    p.len() <= s.len() && s.subrange(0, p.len() as int) == p
}

/// `p` is a suffix of `s`.
pub open spec fn has_suffix(s: Seq<char>, p: Seq<char>) -> bool {
    p.len() <= s.len() && s.subrange(s.len() - p.len(), s.len() as int) == p
}

pub fn starts_with(s: &Vec<char>, p: &Vec<char>) -> (r: bool)
    ensures
        r == has_prefix(s@, p@),
{
    if p.len() > s.len() {
        return false;
    }
    let mut i: usize = 0;
    while i < p.len()
        invariant
            p.len() <= s.len(),
            i <= p.len(),
            forall|k: int| 0 <= k < i ==> s@[k] == p@[k],
        decreases p.len() - i,
    {
        if s[i] != p[i] {
            assert(s@.subrange(0, p.len() as int)[i as int] != p@[i as int]);
            return false;
        }
        i = i + 1;
    }
    assert(s@.subrange(0, p.len() as int) =~= p@);
    true
}

pub fn ends_with(s: &Vec<char>, p: &Vec<char>) -> (r: bool)
    ensures
        r == has_suffix(s@, p@),
{
    if p.len() > s.len() {
        return false;
    }
    let off = s.len() - p.len();
    let mut i: usize = 0;
    while i < p.len()
        invariant
            p.len() <= s.len(),
            off == s.len() - p.len(),
            i <= p.len(),
            forall|k: int| 0 <= k < i ==> s@[off + k] == p@[k],
        decreases p.len() - i,
    {
        if s[off + i] != p[i] {
            assert(s@.subrange(off as int, s.len() as int)[i as int] != p@[i as int]);
            return false;
        }
        i = i + 1;
    }
    assert(s@.subrange(off as int, s.len() as int) =~= p@);
    true
}

pub fn chars_equal(a: &Vec<char>, b: &Vec<char>) -> (r: bool)
    ensures
        r == (a@ == b@),
{
    if a.len() != b.len() {
        return false;
    }
    let mut i: usize = 0;
    while i < a.len()
        invariant
            a.len() == b.len(),
            i <= a.len(),
            forall|k: int| 0 <= k < i ==> a@[k] == b@[k],
        decreases a.len() - i,
    {
        if a[i] != b[i] {
            return false;
        }
        i = i + 1;
    }
    assert(a@ =~= b@);
    true
}

/// The index of the first occurrence of `c` in `s` at or after `i`, or
/// `s.len()` when there is none.
pub open spec fn find_from(s: Seq<char>, c: char, i: int) -> int
    decreases s.len() - i,
{
    if i < 0 || i >= s.len() {
        s.len() as int
    } else if s[i] == c {
        i
    } else {
        find_from(s, c, i + 1)
    }
}

pub proof fn lemma_find_from(s: Seq<char>, c: char, i: int)
    requires
        0 <= i <= s.len(),
    ensures
        i <= find_from(s, c, i) <= s.len(),
        find_from(s, c, i) < s.len() ==> s[find_from(s, c, i)] == c,
        forall|k: int| i <= k < find_from(s, c, i) ==> s[k] != c,
    decreases s.len() - i,
{
    if i < s.len() && s[i] != c {
        lemma_find_from(s, c, i + 1);
    }
}

/// The index of the first `c` in `s`, or `s.len()` when `c` does not occur.
pub fn find_char(s: &Vec<char>, c: char) -> (r: usize)
    ensures
        r == find_from(s@, c, 0),
{
    let mut i: usize = 0;
    while i < s.len() && s[i] != c
        invariant
            i <= s.len(),
            find_from(s@, c, 0) == find_from(s@, c, i as int),
        decreases s.len() - i,
    {
        i = i + 1;
    }
    i
}

/// The index of the first `c` in `s` at or after `start`, or `s.len()`.
pub fn find_char_from(s: &Vec<char>, c: char, start: usize) -> (r: usize)
    requires
        start <= s.len(),
    ensures
        r == find_from(s@, c, start as int),
{
    let mut i: usize = start;
    while i < s.len() && s[i] != c
        invariant
            start <= i <= s.len(),
            find_from(s@, c, start as int) == find_from(s@, c, i as int),
        decreases s.len() - i,
    {
        i = i + 1;
    }
    i
}

/// Searching a suffix of `s` is searching `s` from where the suffix starts.
pub proof fn lemma_find_from_suffix(s: Seq<char>, c: char, a: int, i: int)
    requires
        0 <= a <= s.len(),
        0 <= i <= s.len() - a,
    ensures
        find_from(s.subrange(a, s.len() as int), c, i) == find_from(s, c, a + i) - a,
    decreases s.len() - a - i,
{
    if i < s.len() - a && s[a + i] != c {
        lemma_find_from_suffix(s, c, a, i + 1);
    }
}

/// `s` holds the character `c`.
pub fn has_char(s: &Vec<char>, c: char) -> (r: bool)
    ensures
        r == s@.contains(c),
{
    let i = find_char(s, c);
    proof {
        lemma_find_from(s@, c, 0);
        if s@.contains(c) {
            let k = choose|k: int| 0 <= k < s@.len() && s@[k] == c;
            assert(i <= k);
        }
    }
    i < s.len()
}

/// `s` up to (not including) the first `c`: the first piece of `split(c)`.
pub open spec fn before_char(s: Seq<char>, c: char) -> Seq<char> {
    s.subrange(0, find_from(s, c, 0))
}

pub fn take_before(s: &Vec<char>, c: char) -> (r: Vec<char>)
    ensures
        r@ == before_char(s@, c),
{
    let i = find_char(s, c);
    proof {
        lemma_find_from(s@, c, 0);
    }
    slice_of(s, 0, i)
}

} // verus!
