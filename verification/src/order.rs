//! The order a folder or a list of files is played in: natural order of file
//! names, ignoring case, with runs of digits compared by their value.
use vstd::prelude::*;
use crate::shuffle::is_permutation;
use crate::text::{chars_of, spec_to_lowercase, to_lowercase};
use crate::titles::{is_url, is_url_spec};

verus! {

/// `a` comes before `b` comparing from position `i`: unit by unit, a proper
/// prefix first.
pub open spec fn lex_lt_from(a: Seq<u64>, b: Seq<u64>, i: int) -> bool
    decreases a.len() - i,
{
    if i < 0 || i >= a.len() {
        0 <= i < b.len()
    } else if i >= b.len() {
        false
    } else if a[i] != b[i] {
        a[i] < b[i]
    } else {
        lex_lt_from(a, b, i + 1)
    }
}

/// `a` sorts strictly before `b`.
pub open spec fn lex_lt(a: Seq<u64>, b: Seq<u64>) -> bool {
    lex_lt_from(a, b, 0)
}

proof fn lemma_lex_irreflexive(a: Seq<u64>, i: int)
    requires
        0 <= i <= a.len(),
    ensures
        !lex_lt_from(a, a, i),
    decreases a.len() - i,
{
    if i < a.len() {
        lemma_lex_irreflexive(a, i + 1);
    }
}

proof fn lemma_lex_transitive(a: Seq<u64>, b: Seq<u64>, c: Seq<u64>, i: int)
    requires
        0 <= i,
        i <= a.len(),
        i <= b.len(),
        i <= c.len(),
        lex_lt_from(a, b, i),
        lex_lt_from(b, c, i),
    ensures
        lex_lt_from(a, c, i),
    decreases a.len() - i,
{
    if i < a.len() && i < b.len() && i < c.len() && a[i] == b[i] && b[i] == c[i] {
        lemma_lex_transitive(a, b, c, i + 1);
    }
}

proof fn lemma_lex_total(a: Seq<u64>, b: Seq<u64>, i: int)
    requires
        0 <= i,
        i <= a.len(),
        i <= b.len(),
        a.subrange(i, a.len() as int) != b.subrange(i, b.len() as int),
    ensures
        lex_lt_from(a, b, i) || lex_lt_from(b, a, i),
    decreases a.len() - i,
{
    if i < a.len() && i < b.len() {
        if a[i] == b[i] {
            assert(a.subrange(i, a.len() as int) =~= seq![a[i]] + a.subrange(
                i + 1,
                a.len() as int,
            ));
            assert(b.subrange(i, b.len() as int) =~= seq![b[i]] + b.subrange(
                i + 1,
                b.len() as int,
            ));
            if a.subrange(i + 1, a.len() as int) == b.subrange(i + 1, b.len() as int) {
                assert(false);
            }
            lemma_lex_total(a, b, i + 1);
        }
    } else if i == a.len() && i == b.len() {
        assert(a.subrange(i, a.len() as int) =~= b.subrange(i, b.len() as int));
    }
}

proof fn lemma_lex_asymmetric(a: Seq<u64>, b: Seq<u64>, i: int)
    requires
        0 <= i,
        lex_lt_from(a, b, i),
    ensures
        !lex_lt_from(b, a, i),
    decreases a.len() - i,
{
    if 0 <= i < a.len() && i < b.len() && a[i] == b[i] {
        lemma_lex_asymmetric(a, b, i + 1);
    }
}

/// Entry `i` goes before entry `j`: by key, and by position between equal
/// keys (a stable sort).
pub open spec fn key_before(keys: Seq<Seq<u64>>, i: usize, j: usize) -> bool {
    lex_lt(keys[i as int], keys[j as int]) || (keys[i as int] == keys[j as int] && i < j)
}

/// `order` lists each position of `keys` once, sorted by key and, between
/// equal keys, by position.
pub open spec fn is_key_order(keys: Seq<Seq<u64>>, order: Seq<usize>) -> bool {
    &&& is_permutation(order, keys.len())
    &&& forall|a: int, b: int|
        0 <= a < b < order.len() ==> key_before(keys, #[trigger] order[a], #[trigger] order[b])
}

proof fn lemma_key_before_asymmetric(keys: Seq<Seq<u64>>, x: usize, y: usize)
    requires
        x < keys.len(),
        y < keys.len(),
        key_before(keys, x, y),
    ensures
        !key_before(keys, y, x),
{
    let kx = keys[x as int];
    let ky = keys[y as int];
    if lex_lt(kx, ky) {
        lemma_lex_asymmetric(kx, ky, 0);
        if kx == ky {
            lemma_lex_irreflexive(kx, 0);
        }
    } else if lex_lt(ky, kx) {
        lemma_lex_irreflexive(kx, 0);
    }
}

/// There is exactly one sorted order: two orders that both list every
/// position once, sorted by key and by position between equal keys, agree.
pub proof fn lemma_key_order_unique(keys: Seq<Seq<u64>>, o1: Seq<usize>, o2: Seq<usize>)
    requires
        is_key_order(keys, o1),
        is_key_order(keys, o2),
    ensures
        o1 == o2,
{
    assert forall|a: int| 0 <= a < o1.len() implies o1[a] == o2[a] by {
        lemma_key_order_agree_upto(keys, o1, o2, a);
    }
    assert(o1 =~= o2);
}

proof fn lemma_key_order_agree_upto(keys: Seq<Seq<u64>>, o1: Seq<usize>, o2: Seq<usize>, a: int)
    requires
        is_key_order(keys, o1),
        is_key_order(keys, o2),
        0 <= a < o1.len(),
    ensures
        forall|k: int| 0 <= k <= a ==> o1[k] == o2[k],
    decreases a,
{
    if a > 0 {
        lemma_key_order_agree_upto(keys, o1, o2, a - 1);
    }
    if o1[a] != o2[a] {
        let x = o1[a];
        let y = o2[a];
        assert(o2.contains(x));
        let d = choose|d: int| 0 <= d < o2.len() && o2[d] == x;
        if d < a {
            assert(o1[d] == x);
        }
        assert(o1.contains(y));
        let c = choose|c: int| 0 <= c < o1.len() && o1[c] == y;
        if c < a {
            assert(o2[c] == y);
        }
        assert(key_before(keys, x, y));
        assert(key_before(keys, y, x));
        lemma_key_before_asymmetric(keys, x, y);
    }
}

fn lex_less(a: &Vec<u64>, b: &Vec<u64>) -> (r: bool)
    ensures
        r == lex_lt(a@, b@),
{
    let mut i: usize = 0;
    while i < a.len() && i < b.len() && a[i] == b[i]
        invariant
            i <= a.len(),
            i <= b.len(),
            lex_lt(a@, b@) == lex_lt_from(a@, b@, i as int),
        decreases a.len() - i,
    {
        i = i + 1;
    }
    if i >= a.len() {
        i < b.len()
    } else if i >= b.len() {
        false
    } else {
        a[i] < b[i]
    }
}

/// The positions of `keys` in sorted order, equal keys keeping their
/// relative order.
pub fn key_order(keys: &Vec<Vec<u64>>) -> (r: Vec<usize>)
    ensures
        is_key_order(keys@.map_values(|k: Vec<u64>| k@), r@),
{
    let ghost ks = keys@.map_values(|k: Vec<u64>| k@);
    let mut res: Vec<usize> = Vec::new();
    let mut i: usize = 0;
    while i < keys.len()
        invariant
            i <= keys@.len(),
            ks == keys@.map_values(|k: Vec<u64>| k@),
            ks.len() == keys@.len(),
            res@.len() == i,
            forall|k: int| 0 <= k < res@.len() ==> #[trigger] res@[k] < i,
            res@.no_duplicates(),
            forall|v: usize| v < i ==> #[trigger] res@.contains(v),
            forall|a: int, b: int|
                0 <= a < b < res@.len() ==> key_before(ks, #[trigger] res@[a], #[trigger] res@[b]),
        decreases keys.len() - i,
    {
        let mut p: usize = 0;
        while p < res.len() && !lex_less(&keys[i], &keys[res[p]])
            invariant
                p <= res@.len(),
                i < keys@.len(),
                ks == keys@.map_values(|k: Vec<u64>| k@),
                forall|k: int| 0 <= k < res@.len() ==> #[trigger] res@[k] < i,
                forall|q: int| 0 <= q < p ==> !lex_lt(ks[i as int], ks[res@[q] as int]),
            decreases res.len() - p,
        {
            p = p + 1;
        }
        let ghost before = res@;
        res.insert(p, i);
        proof {
            assert(res@ =~= before.insert(p as int, i));
            assert forall|k: int| 0 <= k < res@.len() implies #[trigger] res@[k] < i + 1 by {
                if k < p {
                    assert(res@[k] == before[k]);
                } else if k > p {
                    assert(res@[k] == before[k - 1]);
                }
            }
            assert forall|x: int, y: int|
                0 <= x < res@.len() && 0 <= y < res@.len() && x != y implies res@[x]
                != res@[y] by {
                if x != p && y != p {
                    let bx = if x < p { x } else { x - 1 };
                    let by = if y < p { y } else { y - 1 };
                    assert(res@[x] == before[bx]);
                    assert(res@[y] == before[by]);
                } else if x == p {
                    let by = if y < p { y } else { y - 1 };
                    assert(res@[y] == before[by]);
                } else {
                    let bx = if x < p { x } else { x - 1 };
                    assert(res@[x] == before[bx]);
                }
            }
            assert forall|v: usize| v < i + 1 implies #[trigger] res@.contains(v) by {
                if v == i {
                    assert(res@[p as int] == i);
                } else {
                    assert(before.contains(v));
                    let q = choose|q: int| 0 <= q < before.len() && before[q] == v;
                    if q < p {
                        assert(res@[q] == v);
                    } else {
                        assert(res@[q + 1] == v);
                    }
                }
            }
            assert forall|a: int, b: int| 0 <= a < b < res@.len() implies key_before(
                ks,
                #[trigger] res@[a],
                #[trigger] res@[b],
            ) by {
                lemma_insert_keeps_order(ks, before, p as int, i, a, b);
            }
        }
        i = i + 1;
    }
    res
}

proof fn lemma_insert_keeps_order(
    ks: Seq<Seq<u64>>,
    before: Seq<usize>,
    p: int,
    i: usize,
    a: int,
    b: int,
)
    requires
        0 <= p <= before.len(),
        i < ks.len(),
        forall|k: int| 0 <= k < before.len() ==> #[trigger] before[k] < i,
        forall|q: int| 0 <= q < p ==> !lex_lt(ks[i as int], ks[before[q] as int]),
        p < before.len() ==> lex_lt(ks[i as int], ks[before[p] as int]),
        forall|x: int, y: int|
            0 <= x < y < before.len() ==> key_before(ks, #[trigger] before[x], #[trigger] before[y]),
        0 <= a < b < before.len() + 1,
    ensures
        key_before(ks, before.insert(p, i)[a], before.insert(p, i)[b]),
{
    let r = before.insert(p, i);
    let ki = ks[i as int];
    if a != p && b != p {
        let ba = if a < p { a } else { a - 1 };
        let bb = if b < p { b } else { b - 1 };
        assert(r[a] == before[ba]);
        assert(r[b] == before[bb]);
    } else if b == p {
        // an entry before the insertion point: its key is not above `i`'s
        let x = before[a];
        assert(r[a] == x);
        assert(!lex_lt(ki, ks[x as int]));
        if ks[x as int] != ki {
            assert(ks[x as int].subrange(0, ks[x as int].len() as int) =~= ks[x as int]);
            assert(ki.subrange(0, ki.len() as int) =~= ki);
            lemma_lex_total(ks[x as int], ki, 0);
        }
    } else {
        // `i` stands before every entry after the insertion point
        assert(a == p);
        let y = before[b - 1];
        assert(r[b] == y);
        let first = before[p];
        assert(lex_lt(ki, ks[first as int]));
        if b - 1 > p {
            assert(key_before(ks, first, y));
            if lex_lt(ks[first as int], ks[y as int]) {
                lemma_lex_transitive(ki, ks[first as int], ks[y as int], 0);
            }
        }
    }
}

/// An ASCII decimal digit.
pub open spec fn is_digit(c: char) -> bool {
    48 <= (c as u32) <= 57
}

/// The end of the run of digits that starts at `i`.
pub open spec fn digit_end(s: Seq<char>, i: int) -> int
    decreases s.len() - i,
{
    if 0 <= i < s.len() && is_digit(s[i]) {
        digit_end(s, i + 1)
    } else {
        i
    }
}

/// The end of the leading zeros of `s[i..e]`.
pub open spec fn zeros_end(s: Seq<char>, i: int, e: int) -> int
    decreases e - i,
{
    if 0 <= i < e && i < s.len() && s[i] == '0' {
        zeros_end(s, i + 1, e)
    } else {
        i
    }
}

pub proof fn lemma_digit_end(s: Seq<char>, i: int)
    requires
        0 <= i <= s.len(),
    ensures
        i <= digit_end(s, i) <= s.len(),
        i < s.len() && is_digit(s[i]) ==> i < digit_end(s, i),
        forall|k: int| i <= k < digit_end(s, i) ==> is_digit(#[trigger] s[k]),
    decreases s.len() - i,
{
    if i < s.len() && is_digit(s[i]) {
        lemma_digit_end(s, i + 1);
    }
}

proof fn lemma_zeros_end(s: Seq<char>, i: int, e: int)
    requires
        0 <= i <= e <= s.len(),
    ensures
        i <= zeros_end(s, i, e) <= e,
    decreases e - i,
{
    if i < e && s[i] == '0' {
        lemma_zeros_end(s, i + 1, e);
    }
}

/// The comparison units of `s` from position `i`, for natural order.  A
/// character that is not a digit is one unit, its code point.  A run of
/// digits is the unit 48 (the code point of `0`, so a number sorts among
/// other characters where a digit does), then the number of its digits
/// without leading zeros, then those digits; so numbers compare by value,
/// and leading zeros do not count.
pub open spec fn units_from(s: Seq<char>, i: int) -> Seq<u64>
    decreases s.len() - i,
{
    if i < 0 || i >= s.len() {
        seq![]
    } else if is_digit(s[i]) {
        let e = digit_end(s, i);
        let z = zeros_end(s, i, e);
        proof {
            lemma_digit_end(s, i);
        }
        seq![48u64, (e - z) as u64] + Seq::new((e - z) as nat, |k: int| (s[z + k] as u32) as u64)
            + units_from(s, e)
    } else {
        seq![(s[i] as u32) as u64] + units_from(s, i + 1)
    }
}

/// The natural-order units of a whole text.
pub open spec fn natural_units(s: Seq<char>) -> Seq<u64> {
    units_from(s, 0)
}

/// The natural-order units of `s`; see [`units_from`].
pub fn natural_key(s: &Vec<char>) -> (r: Vec<u64>)
    ensures
        r@ == natural_units(s@),
{
    let n = s.len();
    let mut r: Vec<u64> = Vec::new();
    let mut i: usize = 0;
    while i < n
        invariant
            i <= n,
            n == s@.len(),
            r@ + units_from(s@, i as int) == natural_units(s@),
        decreases n - i,
    {
        let c = s[i];
        if 48 <= (c as u32) && (c as u32) <= 57 {
            let mut e: usize = i;
            while e < n && 48 <= (s[e] as u32) && (s[e] as u32) <= 57
                invariant
                    i <= e <= n,
                    n == s@.len(),
                    digit_end(s@, i as int) == digit_end(s@, e as int),
                decreases n - e,
            {
                e = e + 1;
            }
            let mut z: usize = i;
            while z < e && s[z] == '0'
                invariant
                    i <= z <= e <= n,
                    n == s@.len(),
                    zeros_end(s@, i as int, e as int) == zeros_end(s@, z as int, e as int),
                decreases e - z,
            {
                z = z + 1;
            }
            proof {
                lemma_digit_end(s@, i as int);
            }
            let ghost before = r@;
            let ghost digits = Seq::new(
                (e - z) as nat,
                |k: int| (s@[z + k] as u32) as u64,
            );
            r.push(48);
            r.push((e - z) as u64);
            let mut k: usize = z;
            while k < e
                invariant
                    z <= k <= e <= n,
                    n == s@.len(),
                    digits == Seq::new((e - z) as nat, |j: int| (s@[z + j] as u32) as u64),
                    r@ == before + seq![48u64, (e - z) as u64] + digits.subrange(
                        0,
                        (k - z) as int,
                    ),
                decreases e - k,
            {
                r.push((s[k] as u32) as u64);
                k = k + 1;
                assert(r@ =~= before + seq![48u64, (e - z) as u64] + digits.subrange(
                    0,
                    (k - z) as int,
                ));
            }
            assert(digits.subrange(0, (e - z) as int) =~= digits);
            assert(r@ + units_from(s@, e as int) =~= before + units_from(s@, i as int));
            i = e;
        } else {
            let ghost before = r@;
            r.push((c as u32) as u64);
            assert(r@ + units_from(s@, (i + 1) as int) =~= before + units_from(s@, i as int));
            i = i + 1;
        }
    }
    assert(r@ + units_from(s@, n as int) =~= r@);
    r
}

proof fn lemma_digit_end_shift(a: Seq<char>, b: Seq<char>, j: int)
    requires
        0 <= j <= b.len(),
    ensures
        digit_end(a + b, a.len() + j) == a.len() + digit_end(b, j),
    decreases b.len() - j,
{
    if j < b.len() && is_digit(b[j]) {
        assert((a + b)[a.len() + j] == b[j]);
        lemma_digit_end_shift(a, b, j + 1);
    } else if j < b.len() {
        assert((a + b)[a.len() + j] == b[j]);
    }
}

proof fn lemma_zeros_end_shift(a: Seq<char>, b: Seq<char>, j: int, e: int)
    requires
        0 <= j <= e <= b.len(),
    ensures
        zeros_end(a + b, a.len() + j, a.len() + e) == a.len() + zeros_end(b, j, e),
    decreases e - j,
{
    if j < e {
        assert((a + b)[a.len() + j] == b[j]);
        if b[j] == '0' {
            lemma_zeros_end_shift(a, b, j + 1, e);
        }
    }
}

/// The units of `a + b` from a position inside `b` are those of `b`: units
/// only look to the right.
proof fn lemma_units_shift(a: Seq<char>, b: Seq<char>, j: int)
    requires
        0 <= j <= b.len(),
    ensures
        units_from(a + b, a.len() + j) == units_from(b, j),
    decreases b.len() - j,
{
    let s = a + b;
    let i = a.len() + j;
    if j < b.len() {
        assert(s[i] == b[j]);
        if is_digit(b[j]) {
            lemma_digit_end(b, j);
            lemma_digit_end_shift(a, b, j);
            let e = digit_end(b, j);
            lemma_zeros_end(b, j, e);
            lemma_zeros_end_shift(a, b, j, e);
            let z = zeros_end(b, j, e);
            assert(Seq::new((e - z) as nat, |k: int| (s[a.len() + z + k] as u32) as u64) =~= Seq::new(
                (e - z) as nat,
                |k: int| (b[z + k] as u32) as u64,
            ));
            lemma_units_shift(a, b, e);
        } else {
            lemma_units_shift(a, b, j + 1);
        }
    }
}

/// No run of digits crosses from `a` into `b`.
pub open spec fn split_between_runs(a: Seq<char>, b: Seq<char>) -> bool {
    a.len() == 0 || b.len() == 0 || !is_digit(a.last()) || !is_digit(b[0])
}

proof fn lemma_digit_end_prefix(a: Seq<char>, b: Seq<char>, i: int)
    requires
        0 <= i < a.len(),
        split_between_runs(a, b),
    ensures
        digit_end(a + b, i) == digit_end(a, i),
    decreases a.len() - i,
{
    assert((a + b)[i] == a[i]);
    if is_digit(a[i]) {
        if i + 1 < a.len() {
            lemma_digit_end_prefix(a, b, i + 1);
        } else {
            assert(a.last() == a[i]);
            assert(digit_end(a, i + 1) == i + 1);
            if b.len() > 0 {
                assert((a + b)[a.len() as int] == b[0]);
            }
            assert(digit_end(a + b, i + 1) == i + 1);
        }
    }
}

proof fn lemma_zeros_end_prefix(a: Seq<char>, b: Seq<char>, i: int, e: int)
    requires
        0 <= i <= e <= a.len(),
    ensures
        zeros_end(a + b, i, e) == zeros_end(a, i, e),
    decreases e - i,
{
    if i < e {
        assert((a + b)[i] == a[i]);
        lemma_zeros_end_prefix(a, b, i + 1, e);
    }
}

/// Where no run of digits crosses from `a` into `b`, the units of `a + b`
/// are those of `a` followed by those of `b`.
proof fn lemma_units_split(a: Seq<char>, b: Seq<char>, i: int)
    requires
        0 <= i <= a.len(),
        split_between_runs(a, b),
    ensures
        units_from(a + b, i) == units_from(a, i) + units_from(b, 0),
    decreases a.len() - i,
{
    let s = a + b;
    if i == a.len() {
        lemma_units_shift(a, b, 0);
        assert(units_from(a, i) =~= Seq::<u64>::empty());
        assert(units_from(a, i) + units_from(b, 0) =~= units_from(b, 0));
    } else {
        assert(s[i] == a[i]);
        if is_digit(a[i]) {
            lemma_digit_end(a, i);
            lemma_digit_end_prefix(a, b, i);
            let e = digit_end(a, i);
            lemma_zeros_end(a, i, e);
            lemma_zeros_end_prefix(a, b, i, e);
            let z = zeros_end(a, i, e);
            let digits = Seq::new((e - z) as nat, |k: int| (a[z + k] as u32) as u64);
            assert(Seq::new((e - z) as nat, |k: int| (s[z + k] as u32) as u64) =~= digits);
            lemma_units_split(a, b, e);
            assert(units_from(s, i) =~= seq![48u64, (e - z) as u64] + digits + units_from(s, e));
            assert(units_from(a, i) =~= seq![48u64, (e - z) as u64] + digits + units_from(a, e));
            assert(units_from(s, i) =~= units_from(a, i) + units_from(b, 0));
        } else {
            lemma_units_split(a, b, i + 1);
            assert(units_from(s, i) =~= seq![(a[i] as u32) as u64] + units_from(s, i + 1));
            assert(units_from(a, i) =~= seq![(a[i] as u32) as u64] + units_from(a, i + 1));
            assert(units_from(s, i) =~= units_from(a, i) + units_from(b, 0));
        }
    }
}

/// Every character of `d` is a decimal digit.
pub open spec fn all_digits(d: Seq<char>) -> bool {
    forall|k: int| 0 <= k < d.len() ==> is_digit(#[trigger] d[k])
}

/// The number a run of decimal digits writes.
pub open spec fn number_value(d: Seq<char>) -> int
    decreases d.len(),
{
    if d.len() == 0 {
        0
    } else {
        number_value(d.drop_last()) * 10 + ((d.last() as u32) as int - 48)
    }
}

spec fn pow10(n: nat) -> int
    decreases n,
{
    if n == 0 {
        1
    } else {
        10 * pow10((n - 1) as nat)
    }
}

proof fn lemma_pow10_monotone(m: nat, n: nat)
    requires
        m <= n,
    ensures
        1 <= pow10(m) <= pow10(n),
    decreases n,
{
    if n > m {
        lemma_pow10_monotone(m, (n - 1) as nat);
    } else if n > 0 {
        lemma_pow10_monotone(0, (n - 1) as nat);
    }
}

proof fn lemma_number_below(d: Seq<char>)
    requires
        all_digits(d),
    ensures
        0 <= number_value(d) < pow10(d.len()),
    decreases d.len(),
{
    if d.len() > 0 {
        assert(is_digit(d[d.len() - 1]));
        lemma_number_below(d.drop_last());
    }
}

proof fn lemma_number_at_least(d: Seq<char>)
    requires
        all_digits(d),
        d.len() > 0,
        d[0] != '0',
    ensures
        number_value(d) >= pow10((d.len() - 1) as nat),
    decreases d.len(),
{
    assert(is_digit(d[d.len() - 1]));
    if d.len() == 1 {
        assert(d.last() == d[0]);
        vstd::utf8::char_u32_cast(d[0], d[0] as u32);
        vstd::utf8::char_u32_cast('0', '0' as u32);
        assert((d[0] as u32) != 48u32);
        assert(d.drop_last().len() == 0);
        assert(number_value(d.drop_last()) == 0);
        assert(pow10(0) == 1);
    } else {
        assert(d.drop_last()[0] == d[0]);
        lemma_number_at_least(d.drop_last());
        assert(d.drop_last().len() == d.len() - 1);
        assert(pow10((d.len() - 1) as nat) == 10 * pow10((d.len() - 2) as nat));
        assert(d.last() == d[d.len() - 1]);
    }
}

proof fn lemma_number_injective(d1: Seq<char>, d2: Seq<char>)
    requires
        all_digits(d1),
        all_digits(d2),
        d1.len() == d2.len(),
        number_value(d1) == number_value(d2),
    ensures
        d1 == d2,
    decreases d1.len(),
{
    if d1.len() > 0 {
        let n = d1.len() - 1;
        assert(is_digit(d1[n]) && is_digit(d2[n]));
        lemma_number_below(d1.drop_last());
        lemma_number_below(d2.drop_last());
        lemma_number_injective(d1.drop_last(), d2.drop_last());
        assert((d1[n] as u32) == (d2[n] as u32));
        vstd::utf8::char_u32_cast(d1[n], d1[n] as u32);
        vstd::utf8::char_u32_cast(d2[n], d2[n] as u32);
        assert(d1[n] == d2[n]);
        assert(d1.drop_last() == d2.drop_last());
        assert(d1 =~= d2.drop_last().push(d2[n]));
        assert(d2 =~= d2.drop_last().push(d2[n]));
    } else {
        assert(d1 =~= d2);
    }
}

/// Of two digit runs of one length, the smaller number is the one with the
/// smaller digit at the first place they differ.
proof fn lemma_number_less_same_length(d1: Seq<char>, d2: Seq<char>) -> (k: int)
    requires
        all_digits(d1),
        all_digits(d2),
        d1.len() == d2.len(),
        number_value(d1) < number_value(d2),
    ensures
        0 <= k < d1.len(),
        d1.subrange(0, k) == d2.subrange(0, k),
        (d1[k] as u32) < (d2[k] as u32),
    decreases d1.len(),
{
    let n = d1.len() - 1;
    assert(is_digit(d1[n]) && is_digit(d2[n]));
    let a1 = number_value(d1.drop_last());
    let a2 = number_value(d2.drop_last());
    lemma_number_below(d1.drop_last());
    lemma_number_below(d2.drop_last());
    if a1 < a2 {
        let k = lemma_number_less_same_length(d1.drop_last(), d2.drop_last());
        assert(d1.subrange(0, k) =~= d1.drop_last().subrange(0, k));
        assert(d2.subrange(0, k) =~= d2.drop_last().subrange(0, k));
        k
    } else {
        lemma_number_injective(d1.drop_last(), d2.drop_last());
        assert(d1.subrange(0, n) =~= d1.drop_last());
        assert(d2.subrange(0, n) =~= d2.drop_last());
        n
    }
}

proof fn lemma_digit_end_all(d: Seq<char>, i: int)
    requires
        all_digits(d),
        0 <= i <= d.len(),
    ensures
        digit_end(d, i) == d.len(),
    decreases d.len() - i,
{
    if i < d.len() {
        lemma_digit_end_all(d, i + 1);
    }
}

/// The units of a run of digits without a leading zero: the unit 48, its
/// length, then its digits in reading order.
proof fn lemma_number_units(d: Seq<char>)
    requires
        all_digits(d),
        d.len() > 0,
        d[0] != '0',
    ensures
        natural_units(d) == seq![48u64, d.len() as u64] + Seq::new(
            d.len(),
            |k: int| (d[k] as u32) as u64,
        ),
{
    lemma_digit_end_all(d, 0);
    assert(zeros_end(d, 0, d.len() as int) == 0);
    assert(units_from(d, d.len() as int) =~= Seq::<u64>::empty());
    assert(Seq::new(d.len(), |k: int| (d[0 + k] as u32) as u64) =~= Seq::new(
        d.len(),
        |k: int| (d[k] as u32) as u64,
    ));
    assert(natural_units(d) =~= seq![48u64, d.len() as u64] + Seq::new(
        d.len(),
        |k: int| (d[k] as u32) as u64,
    ) + Seq::<u64>::empty());
}

proof fn lemma_lex_at(a: Seq<u64>, b: Seq<u64>, k: int, i: int)
    requires
        0 <= i <= k,
        k < a.len(),
        k < b.len(),
        a.subrange(0, k) == b.subrange(0, k),
        a[k] < b[k],
    ensures
        lex_lt_from(a, b, i),
    decreases k - i,
{
    if i < k {
        assert(a[i] == a.subrange(0, k)[i]);
        assert(b[i] == b.subrange(0, k)[i]);
        lemma_lex_at(a, b, k, i + 1);
        assert(a[i] == b[i]);
    } else {
        assert(a[i] != b[i]);
    }
}

/// Natural order compares numbers by value: of two names that differ only
/// in one number, written without leading zeros and standing between
/// non-digits (or at either end), the one with the smaller number sorts
/// first (so `ep2` before `ep10`, and `ep12` before `ep21`).
pub proof fn lemma_numbers_sort_by_value(
    prefix: Seq<char>,
    d1: Seq<char>,
    d2: Seq<char>,
    suffix: Seq<char>,
)
    requires
        prefix.len() == 0 || !is_digit(prefix.last()),
        suffix.len() == 0 || !is_digit(suffix[0]),
        all_digits(d1),
        all_digits(d2),
        0 < d1.len() <= u64::MAX,
        0 < d2.len() <= u64::MAX,
        d1[0] != '0',
        d2[0] != '0',
        number_value(d1) < number_value(d2),
    ensures
        lex_lt(natural_units(prefix + d1 + suffix), natural_units(prefix + d2 + suffix)),
{
    let pu = natural_units(prefix);
    let qu = natural_units(suffix);
    let c1 = Seq::new(d1.len(), |k: int| (d1[k] as u32) as u64);
    let c2 = Seq::new(d2.len(), |k: int| (d2[k] as u32) as u64);
    lemma_units_split(prefix + d1, suffix, 0);
    lemma_units_split(prefix, d1, 0);
    lemma_units_split(prefix + d2, suffix, 0);
    lemma_units_split(prefix, d2, 0);
    lemma_number_units(d1);
    lemma_number_units(d2);
    let k1 = pu + seq![48u64, d1.len() as u64] + c1 + qu;
    let k2 = pu + seq![48u64, d2.len() as u64] + c2 + qu;
    assert(natural_units(prefix + d1 + suffix) =~= k1);
    assert(natural_units(prefix + d2 + suffix) =~= k2);
    let p = pu.len() as int;
    if d1.len() < d2.len() {
        assert(k1.subrange(0, p + 1) =~= k2.subrange(0, p + 1));
        lemma_lex_at(k1, k2, p + 1, 0);
    } else if d1.len() > d2.len() {
        lemma_number_at_least(d1);
        lemma_number_below(d2);
        lemma_pow10_monotone(d2.len(), (d1.len() - 1) as nat);
    } else {
        let k = lemma_number_less_same_length(d1, d2);
        assert forall|j: int| 0 <= j < k implies c1[j] == c2[j] by {
            assert(d1.subrange(0, k)[j] == d2.subrange(0, k)[j]);
        }
        assert(k1.subrange(0, p + 2 + k) =~= k2.subrange(0, p + 2 + k));
        lemma_lex_at(k1, k2, p + 2 + k, 0);
    }
}

/// What `Path::file_name` gives for a path with these characters, if anything.
pub uninterp spec fn spec_file_name(path: Seq<char>) -> Option<Seq<char>>;

/// Trusted: `std::path::Path::file_name`, as text.  The name of a UTF-8 path
/// is UTF-8, so the conversion back to text loses nothing.
#[verifier::external_body]
fn file_name(p: &str) -> (r: Option<String>)
    ensures
        r matches Some(s) ==> spec_file_name(p@) == Some(s@),
        r is None ==> spec_file_name(p@) is None,
{
    std::path::Path::new(p).file_name().map(|n| n.to_string_lossy().into_owned())
}

/// The text a path is sorted by: its file name (empty when it has none),
/// lowercased.
pub open spec fn sort_name(path: Seq<char>) -> Seq<char> {
    spec_to_lowercase(
        match spec_file_name(path) {
            Some(n) => n,
            None => Seq::empty(),
        },
    )
}

/// The sort key of a path: the natural-order units of its lowercased file
/// name.
pub open spec fn name_key(path: Seq<char>) -> Seq<u64> {
    natural_units(sort_name(path))
}

/// The sort key of each path.
pub open spec fn name_keys(paths: Seq<String>) -> Seq<Seq<u64>> {
    paths.map_values(|p: String| name_key(p@))
}

/// The order a list of paths is played in: a list of addresses (its first
/// entry is an address) keeps the order the user gave; files are sorted by
/// [`name_key`] (natural order of file names), equal keys keeping their order.
pub fn sort_playlist(paths: &Vec<String>) -> (r: Vec<String>)
    ensures
        paths@.len() > 0 && is_url_spec(paths@[0]@) ==> r@ == paths@,
        !(paths@.len() > 0 && is_url_spec(paths@[0]@)) ==> exists|order: Seq<usize>|
            #[trigger] is_key_order(name_keys(paths@), order) && r@ == order.map_values(
                |k: usize| paths@[k as int],
            ),
{
    if paths.len() > 0 && is_url(paths[0].as_str()) {
        let r = paths.clone();
        assert(r@ =~= paths@);
        return r;
    }
    let mut keys: Vec<Vec<u64>> = Vec::new();
    let mut i: usize = 0;
    while i < paths.len()
        invariant
            i <= paths@.len(),
            keys@.map_values(|k: Vec<u64>| k@) == paths@.subrange(0, i as int).map_values(
                |p: String| name_key(p@),
            ),
        decreases paths.len() - i,
    {
        let name = match file_name(paths[i].as_str()) {
            Some(n) => n,
            None => String::new(),
        };
        let key = natural_key(&chars_of(to_lowercase(name.as_str()).as_str()));
        assert(key@ == name_key(paths@[i as int]@));
        let ghost before = keys@;
        keys.push(key);
        assert(keys@.map_values(|k: Vec<u64>| k@) =~= before.map_values(|k: Vec<u64>| k@).push(
            key@,
        ));
        assert(paths@.subrange(0, i + 1).map_values(|p: String| name_key(p@)) =~= paths@.subrange(
            0,
            i as int,
        ).map_values(|p: String| name_key(p@)).push(name_key(paths@[i as int]@)));
        i = i + 1;
    }
    assert(paths@.subrange(0, paths@.len() as int) =~= paths@);
    let order = key_order(&keys);
    let ghost ks = name_keys(paths@);
    let mut r: Vec<String> = Vec::new();
    let mut k: usize = 0;
    while k < order.len()
        invariant
            k <= order@.len(),
            is_key_order(ks, order@),
            ks.len() == paths@.len(),
            r@ == order@.subrange(0, k as int).map_values(|j: usize| paths@[j as int]),
        decreases order.len() - k,
    {
        let j = order[k];
        assert(j < paths@.len());
        r.push(paths[j].clone());
        k = k + 1;
        assert(r@ =~= order@.subrange(0, k as int).map_values(|j: usize| paths@[j as int]));
    }
    assert(order@.subrange(0, order@.len() as int) =~= order@);
    r
}

/// In a sorted order, an entry whose key is strictly smaller comes earlier.
pub proof fn lemma_smaller_key_sorts_first(
    keys: Seq<Seq<u64>>,
    order: Seq<usize>,
    a: int,
    b: int,
)
    requires
        is_key_order(keys, order),
        0 <= a < order.len(),
        0 <= b < order.len(),
        lex_lt(keys[order[a] as int], keys[order[b] as int]),
    ensures
        a < b,
{
    let ka = keys[order[a] as int];
    let kb = keys[order[b] as int];
    if b < a {
        assert(key_before(keys, order[b], order[a]));
        lemma_lex_asymmetric(ka, kb, 0);
        if ka == kb {
            lemma_lex_irreflexive(ka, 0);
        }
    } else if a == b {
        lemma_lex_irreflexive(ka, 0);
    }
}

/// Files whose names differ only in one number (written without leading
/// zeros, between non-digits) are played in the order of those numbers:
/// in the sorted order of a playlist, the file with the smaller number
/// comes first.
pub proof fn lemma_numbered_files_play_in_order(
    paths: Seq<String>,
    order: Seq<usize>,
    a: int,
    b: int,
    prefix: Seq<char>,
    d1: Seq<char>,
    d2: Seq<char>,
    suffix: Seq<char>,
)
    requires
        is_key_order(name_keys(paths), order),
        0 <= a < order.len(),
        0 <= b < order.len(),
        sort_name(paths[order[a] as int]@) == prefix + d1 + suffix,
        sort_name(paths[order[b] as int]@) == prefix + d2 + suffix,
        prefix.len() == 0 || !is_digit(prefix.last()),
        suffix.len() == 0 || !is_digit(suffix[0]),
        all_digits(d1),
        all_digits(d2),
        0 < d1.len() <= u64::MAX,
        0 < d2.len() <= u64::MAX,
        d1[0] != '0',
        d2[0] != '0',
        number_value(d1) < number_value(d2),
    ensures
        a < b,
{
    lemma_numbers_sort_by_value(prefix, d1, d2, suffix);
    let keys = name_keys(paths);
    assert(order[a] < paths.len() && order[b] < paths.len()) by {
        assert(order[a] < keys.len());
        assert(order[b] < keys.len());
    }
    assert(keys[order[a] as int] == name_key(paths[order[a] as int]@));
    assert(keys[order[b] as int] == name_key(paths[order[b] as int]@));
    lemma_smaller_key_sorts_first(keys, order, a, b);
}

} // verus!
