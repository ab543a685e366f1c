//! The shuffled play order: a Fisher–Yates shuffle driven by a linear
//! congruential generator, with the current track moved to the front.
use vstd::prelude::*;

verus! {

/// One step of the generator (Knuth's MMIX constants, wrapping arithmetic).
pub open spec fn lcg_step(rng: u64) -> u64 {
    rng.wrapping_mul(6364136223846793005u64).wrapping_add(1442695040888963407u64)
}

/// The position in `0..=i` that position `i` is swapped with, drawn from the
/// high bits of the generator state.
pub open spec fn shuffle_pick(rng: u64, i: nat) -> int {
    ((rng >> 33u64) as int) % (i as int + 1)
}

pub open spec fn swap_at(s: Seq<usize>, i: int, j: int) -> Seq<usize> {
    s.update(i, s[j]).update(j, s[i])
}

/// Fisher–Yates over positions `i, i - 1, ..., 1` of `order`, starting from
/// generator state `rng`.
pub open spec fn shuffle_down(order: Seq<usize>, rng: u64, i: nat) -> Seq<usize>
    decreases i,
{
    if i == 0 {
        order
    } else {
        let r = lcg_step(rng);
        shuffle_down(swap_at(order, i as int, shuffle_pick(r, i)), r, (i - 1) as nat)
    }
}

/// `0, 1, ..., n - 1`.
pub open spec fn identity_order(n: nat) -> Seq<usize> {
    Seq::new(n, |k: int| k as usize)
}

/// The first position at or after `i` where `s` holds `x`, or `s.len()`.
pub open spec fn position_from(s: Seq<usize>, x: usize, i: int) -> int
    decreases s.len() - i,
{
    if i < 0 || i >= s.len() {
        s.len() as int
    } else if s[i] == x {
        i
    } else {
        position_from(s, x, i + 1)
    }
}

/// The first position of `x` in `s`, or `s.len()` when `x` does not occur.
pub open spec fn position_of(s: Seq<usize>, x: usize) -> int {
    position_from(s, x, 0)
}

/// `order` with `cur` taken out of its place and put first, when it occurs.
pub open spec fn move_to_front(order: Seq<usize>, cur: usize) -> Seq<usize> {
    let p = position_of(order, cur);
    if p < order.len() {
        seq![cur] + order.remove(p)
    } else {
        order
    }
}

/// The shuffle order for a playlist of `n` tracks, seeded with `seed`, with
/// the current track (if any) first.
pub open spec fn shuffled_order(n: nat, seed: u64, current: Option<usize>) -> Seq<usize> {
    if n == 0 {
        seq![]
    } else {
        let base = shuffle_down(identity_order(n), seed.wrapping_add(1), (n - 1) as nat);
        match current {
            Some(c) => move_to_front(base, c),
            None => base,
        }
    }
}

/// `s` lists each of `0..n` exactly once.
pub open spec fn is_permutation(s: Seq<usize>, n: nat) -> bool {
    &&& s.len() == n
    &&& forall|k: int| 0 <= k < s.len() ==> #[trigger] s[k] < n
    &&& s.no_duplicates()
    &&& forall|v: usize| v < n ==> #[trigger] s.contains(v)
}

pub proof fn lemma_position_from(s: Seq<usize>, x: usize, i: int)
    requires
        0 <= i <= s.len(),
    ensures
        i <= position_from(s, x, i) <= s.len(),
        position_from(s, x, i) < s.len() ==> s[position_from(s, x, i)] == x,
        forall|k: int| i <= k < position_from(s, x, i) ==> s[k] != x,
    decreases s.len() - i,
{
    if i < s.len() && s[i] != x {
        lemma_position_from(s, x, i + 1);
    }
}

/// In a sequence without duplicates, the position of the element at `k` is `k`.
pub proof fn lemma_position_of_distinct(s: Seq<usize>, k: int)
    requires
        s.no_duplicates(),
        0 <= k < s.len(),
    ensures
        position_of(s, s[k]) == k,
{
    lemma_position_from(s, s[k], 0);
}

pub proof fn lemma_position_of_absent(s: Seq<usize>, x: usize)
    ensures
        !s.contains(x) ==> position_of(s, x) == s.len(),
        s.contains(x) ==> position_of(s, x) < s.len(),
{
    lemma_position_from(s, x, 0);
    if s.contains(x) {
        let k = choose|k: int| 0 <= k < s.len() && s[k] == x;
        assert(position_of(s, x) <= k);
    }
}

proof fn lemma_identity_is_permutation(n: nat)
    requires
        n <= usize::MAX,
    ensures
        is_permutation(identity_order(n), n),
{
    let s = identity_order(n);
    assert forall|v: usize| v < n implies #[trigger] s.contains(v) by {
        assert(s[v as int] == v);
    }
}

proof fn lemma_swap_permutation(s: Seq<usize>, n: nat, i: int, j: int)
    requires
        is_permutation(s, n),
        0 <= i < n,
        0 <= j < n,
    ensures
        is_permutation(swap_at(s, i, j), n),
{
    let t = swap_at(s, i, j);
    assert forall|a: int, b: int| 0 <= a < t.len() && 0 <= b < t.len() && a != b implies t[a]
        != t[b] by {
        let pa = if a == i { j } else if a == j { i } else { a };
        let pb = if b == i { j } else if b == j { i } else { b };
        assert(t[a] == s[pa]);
        assert(t[b] == s[pb]);
    }
    assert forall|v: usize| v < n implies #[trigger] t.contains(v) by {
        assert(s.contains(v));
        let p = choose|p: int| 0 <= p < s.len() && s[p] == v;
        let q = if p == i { j } else if p == j { i } else { p };
        assert(t[q] == v);
    }
    assert forall|k: int| 0 <= k < t.len() implies #[trigger] t[k] < n by {
        let pk = if k == i { j } else if k == j { i } else { k };
        assert(t[k] == s[pk]);
    }
}

proof fn lemma_shuffle_down_permutation(s: Seq<usize>, n: nat, rng: u64, i: nat)
    requires
        is_permutation(s, n),
        i < n,
    ensures
        is_permutation(shuffle_down(s, rng, i), n),
    decreases i,
{
    if i > 0 {
        let r = lcg_step(rng);
        let j = shuffle_pick(r, i);
        assert(0 <= j <= i) by {
            assert(((r >> 33u64) as int) >= 0);
        }
        lemma_swap_permutation(s, n, i as int, j);
        lemma_shuffle_down_permutation(swap_at(s, i as int, j), n, r, (i - 1) as nat);
    }
}

proof fn lemma_move_to_front_permutation(s: Seq<usize>, n: nat, cur: usize)
    requires
        is_permutation(s, n),
    ensures
        is_permutation(move_to_front(s, cur), n),
        cur < n ==> move_to_front(s, cur)[0] == cur,
{
    lemma_position_of_absent(s, cur);
    let p = position_of(s, cur);
    if p < s.len() {
        lemma_position_from(s, cur, 0);
        let t = seq![cur] + s.remove(p);
        let r = s.remove(p);
        assert(t.len() == n);
        assert forall|k: int| 0 <= k < t.len() implies #[trigger] t[k] < n by {
            if k > 0 {
                assert(t[k] == r[k - 1]);
            }
        }
        assert forall|a: int, b: int| 0 <= a < t.len() && 0 <= b < t.len() && a != b implies t[a]
            != t[b] by {
            let pa = if a == 0 { p } else if a - 1 < p { a - 1 } else { a };
            let pb = if b == 0 { p } else if b - 1 < p { b - 1 } else { b };
            assert(t[a] == s[pa]);
            assert(t[b] == s[pb]);
        }
        assert forall|v: usize| v < n implies #[trigger] t.contains(v) by {
            assert(s.contains(v));
            let q = choose|q: int| 0 <= q < s.len() && s[q] == v;
            let k = if q == p { 0 } else if q < p { q + 1 } else { q };
            assert(t[k] == v);
        }
    } else {
        if cur < n {
            assert(s.contains(cur));
        }
    }
}

/// Every shuffle order lists each track of the playlist exactly once, and the
/// current track, when it is one of them, comes first.
pub proof fn lemma_shuffled_order_is_permutation(n: nat, seed: u64, current: Option<usize>)
    requires
        n <= usize::MAX,
    ensures
        is_permutation(shuffled_order(n, seed, current), n),
        current is Some && current.unwrap() < n ==> shuffled_order(n, seed, current)[0]
            == current.unwrap(),
{
    if n > 0 {
        lemma_identity_is_permutation(n);
        let base = shuffle_down(identity_order(n), seed.wrapping_add(1), (n - 1) as nat);
        lemma_shuffle_down_permutation(identity_order(n), n, seed.wrapping_add(1), (n - 1) as nat);
        if let Some(c) = current {
            lemma_move_to_front_permutation(base, n, c);
        }
    } else {
        assert(shuffled_order(n, seed, current) =~= Seq::<usize>::empty());
    }
}

/// The generator state that one step takes to `t`: the generator's
/// multiplier is odd, so each step can be undone (13877824140714322085 is the
/// multiplier's inverse modulo 2^64).
spec fn lcg_back(t: u64) -> u64 {
    t.wrapping_sub(1442695040888963407u64).wrapping_mul(13877824140714322085u64)
}

proof fn lemma_lcg_back(t: u64)
    ensures
        lcg_step(lcg_back(t)) == t,
{
    let s = t.wrapping_sub(1442695040888963407u64);
    let x = s.wrapping_mul(13877824140714322085u64);
    assert(x == ((s * 13877824140714322085u64) % 0x1_0000_0000_0000_0000int) as u64);
    let y = x.wrapping_mul(6364136223846793005u64);
    assert(y == ((x * 6364136223846793005u64) % 0x1_0000_0000_0000_0000int) as u64);
    assert(((((s * 13877824140714322085u64) % 0x1_0000_0000_0000_0000int) as u64
        * 6364136223846793005u64) % 0x1_0000_0000_0000_0000int) as u64 == s) by (bit_vector);
    assert(y == s);
}

/// The pick at step `i` is a position in `0..=i`, and every such position,
/// `0` included, is picked from some generator state.
pub proof fn lemma_shuffle_pick_covers(i: nat, j: nat)
    requires
        j <= i < 0x8000_0000,
    ensures
        forall|r: u64| 0 <= #[trigger] shuffle_pick(r, i) <= i,
        shuffle_pick((j as u64) << 33u64, i) == j,
{
    let jj = j as u64;
    assert(((jj << 33u64) >> 33u64) == jj) by (bit_vector)
        requires
            jj < 0x8000_0000u64,
    ;
    vstd::arithmetic::div_mod::lemma_small_mod(j, (i + 1) as nat);
}

/// Each Fisher–Yates step may swap position `i` with any position `j` in
/// `0..=i`: for every such `j` some generator state makes the step at `i`
/// exchange the entries at `i` and `j` before the steps below it run.
pub proof fn lemma_shuffle_step_reaches_every_position(order: Seq<usize>, i: nat, j: nat)
    requires
        1 <= i < 0x8000_0000,
        j <= i,
    ensures
        exists|rng: u64|
            #[trigger] shuffle_down(order, rng, i) == shuffle_down(
                swap_at(order, i as int, j as int),
                lcg_step(rng),
                (i - 1) as nat,
            ),
{
    let target = (j as u64) << 33u64;
    let rng = lcg_back(target);
    lemma_lcg_back(target);
    lemma_shuffle_pick_covers(i, j);
    assert(shuffle_pick(lcg_step(rng), i) == j);
    assert(shuffle_down(order, rng, i) == shuffle_down(
        swap_at(order, i as int, j as int),
        lcg_step(rng),
        (i - 1) as nat,
    ));
}

/// Trusted: `SystemTime::now()`, read as the sub-second nanoseconds of the
/// time since the Unix epoch; nothing when the clock reads before the epoch.
/// The value depends on the clock; the only thing claimed is the documented
/// range of `Duration::subsec_nanos`.
#[verifier::external_body]
fn clock_nanos() -> (r: Option<u32>)
    ensures
        r matches Some(n) ==> n < 1_000_000_000,
{
    std::time::SystemTime::now().duration_since(std::time::UNIX_EPOCH).ok().map(
        |d| d.subsec_nanos(),
    )
}

/// A generator seed taken from the clock: the sub-second nanoseconds, or
/// 12345 when the clock reads before the Unix epoch.
pub(crate) fn clock_seed() -> (r: u64)
    ensures
        r < 1_000_000_000,
{
    match clock_nanos() {
        Some(n) => n as u64,
        None => 12345,
    }
}

/// The shuffle order for `n` tracks from `seed`, with `current` first.
pub fn build_shuffle_order(n: usize, seed: u64, current: Option<usize>) -> (r: Vec<usize>)
    ensures
        r@ == shuffled_order(n as nat, seed, current),
{
    if n == 0 {
        let r: Vec<usize> = Vec::new();
        assert(r@ =~= shuffled_order(n as nat, seed, current));
        return r;
    }
    let mut order: Vec<usize> = Vec::new();
    let mut k: usize = 0;
    while k < n
        invariant
            k <= n,
            order@ == identity_order(k as nat),
        decreases n - k,
    {
        order.push(k);
        k = k + 1;
        assert(order@ =~= identity_order(k as nat));
    }
    let ghost start = order@;
    let mut rng: u64 = seed.wrapping_add(1);
    let mut i: usize = n - 1;
    while i > 0
        invariant
            i < n,
            order@.len() == n,
            shuffle_down(start, seed.wrapping_add(1), (n - 1) as nat) == shuffle_down(
                order@,
                rng,
                i as nat,
            ),
        decreases i,
    {
        rng = rng.wrapping_mul(6364136223846793005).wrapping_add(1442695040888963407);
        let hi = rng >> 33;
        assert(hi < 0x8000_0000) by (bit_vector)
            requires
                hi == rng >> 33u64,
        ;
        let j = (hi as usize) % (i + 1);
        let ghost prev = order@;
        let a = order[i];
        let b = order[j];
        order.set(i, b);
        order.set(j, a);
        assert(j as int == shuffle_pick(rng, i as nat));
        assert(order@ =~= swap_at(prev, i as int, j as int));
        i = i - 1;
    }
    assert(order@ == shuffle_down(start, seed.wrapping_add(1), (n - 1) as nat));
    if let Some(cur) = current {
        let mut p: usize = 0;
        while p < order.len() && order[p] != cur
            invariant
                p <= order@.len(),
                position_of(order@, cur) == position_from(order@, cur, p as int),
            decreases order.len() - p,
        {
            p = p + 1;
        }
        if p < order.len() {
            order.remove(p);
            order.insert(0, cur);
            proof {
                let base = shuffle_down(start, seed.wrapping_add(1), (n - 1) as nat);
                assert(order@ =~= seq![cur] + base.remove(p as int));
            }
        }
    }
    order
}

} // verus!
