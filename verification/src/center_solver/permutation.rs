//! Parity of permutations given as index maps.

use vstd::prelude::*;

verus! {

/// `p` maps 0..len one-to-one onto 0..len.
pub open spec fn is_permutation(p: Seq<usize>) -> bool {
    &&& forall|i: int| 0 <= i < p.len() ==> #[trigger] p[i] < p.len()
    &&& forall|i: int, j: int| 0 <= i < p.len() && 0 <= j < p.len() && i != j ==> #[trigger] p[i] != #[trigger] p[j]
}

/// `p` applied `k` times to `i`.
pub open spec fn perm_iter(p: Seq<usize>, i: int, k: nat) -> int
    decreases k,
{
    if k == 0 {
        i
    } else {
        p[perm_iter(p, i, (k - 1) as nat)] as int
    }
}

/// `i` is the smallest element of its cycle under `p`.
pub open spec fn is_cycle_leader(p: Seq<usize>, i: int) -> bool {
    forall|k: nat| #[trigger] perm_iter(p, i, k) >= i
}

/// Number of cycles of `p` whose smallest element is below `m`.
pub open spec fn count_leaders(p: Seq<usize>, m: int) -> nat
    decreases m,
{
    if m <= 0 {
        0
    } else {
        count_leaders(p, m - 1) + if is_cycle_leader(p, m - 1) { 1nat } else { 0nat }
    }
}

/// Number of cycles of `p` (fixed points included).
pub open spec fn num_cycles(p: Seq<usize>) -> nat {
    count_leaders(p, p.len() as int)
}

/// A permutation is odd when its length minus its number of cycles is odd: it is then a
/// product of an odd number of transpositions.
pub open spec fn perm_is_odd(p: Seq<usize>) -> bool {
    (p.len() - num_cycles(p)) % 2 == 1
}

/// Number of `true` entries.
pub open spec fn count_true(s: Seq<bool>) -> nat
    decreases s.len(),
{
    if s.len() == 0 {
        0
    } else {
        count_true(s.drop_last()) + if s.last() { 1nat } else { 0nat }
    }
}

pub proof fn lemma_count_true_update(s: Seq<bool>, j: int)
    requires
        0 <= j < s.len(),
        !s[j],
    ensures
        count_true(s.update(j, true)) == count_true(s) + 1,
    decreases s.len(),
{
    let t = s.update(j, true);
    if j == s.len() - 1 {
        assert(t.drop_last() =~= s.drop_last());
    } else {
        lemma_count_true_update(s.drop_last(), j);
        assert(t.drop_last() =~= s.drop_last().update(j, true));
    }
}

pub proof fn lemma_count_true_bound(s: Seq<bool>)
    ensures
        count_true(s) <= s.len(),
        (forall|i: int| 0 <= i < s.len() ==> s[i]) ==> count_true(s) == s.len(),
    decreases s.len(),
{
    if s.len() > 0 {
        lemma_count_true_bound(s.drop_last());
    }
}

/// Iterating `a` then `b` times is iterating `a + b` times.
pub proof fn lemma_perm_iter_add(p: Seq<usize>, i: int, a: nat, b: nat)
    ensures
        perm_iter(p, perm_iter(p, i, a), b) == perm_iter(p, i, a + b),
    decreases b,
{
    if b > 0 {
        lemma_perm_iter_add(p, i, a, (b - 1) as nat);
    }
}

/// Iterates of an index in range stay in range.
pub proof fn lemma_perm_iter_range(p: Seq<usize>, i: int, k: nat)
    requires
        forall|j: int| 0 <= j < p.len() ==> #[trigger] p[j] < p.len(),
        0 <= i < p.len(),
    ensures
        0 <= perm_iter(p, i, k) < p.len(),
    decreases k,
{
    if k > 0 {
        lemma_perm_iter_range(p, i, (k - 1) as nat);
    }
}

/// If a set is closed backwards under `p` (p(x) in it implies x in it), then an element whose
/// iterate lies in it lies in it.
pub proof fn lemma_back_closed(p: Seq<usize>, vis: Seq<bool>, x: int, k: nat)
    requires
        is_permutation(p),
        vis.len() == p.len(),
        0 <= x < p.len(),
        forall|y: int| 0 <= y < p.len() && #[trigger] vis[p[y] as int] ==> vis[y],
        vis[perm_iter(p, x, k)],
    ensures
        vis[x],
    decreases k,
{
    if k > 0 {
        lemma_perm_iter_range(p, x, (k - 1) as nat);
        let y = perm_iter(p, x, (k - 1) as nat);
        assert(vis[p[y] as int]);
        lemma_back_closed(p, vis, x, (k - 1) as nat);
    }
}

/// Whether the permutation `perm` is odd.
pub fn is_odd_permutation(perm: &[usize]) -> (odd: bool)
    requires
        forall|i: int| 0 <= i < perm@.len() ==> #[trigger] perm@[i] < perm@.len(),
    ensures
        is_permutation(perm@) ==> odd == perm_is_odd(perm@),
{
    let n = perm.len();
    let ghost p = perm@;
    let ghost is_perm = is_permutation(p);
    let mut visited: Vec<bool> = Vec::new();
    let mut z: usize = 0;
    while z < n
        invariant
            z <= n,
            visited@.len() == z,
            forall|x: int| 0 <= x < z ==> !visited@[x],
        decreases n - z,
    {
        visited.push(false);
        z = z + 1;
    }
    proof {
        assert(count_true(visited@) == 0) by {
            lemma_count_true_zero(visited@);
        }
    }
    let mut transpositions: usize = 0;
    let ghost mut info: Seq<(int, nat, nat)> = Seq::new(n as nat, |x: int| (0int, 0nat, 0nat));
    let mut i: usize = 0;
    while i < n
        invariant
            n == p.len(),
            p == perm@,
            is_perm == is_permutation(p),
            forall|j: int| 0 <= j < p.len() ==> #[trigger] p[j] < p.len(),
            i <= n,
            visited@.len() == n,
            info.len() == n,
            transpositions <= count_true(visited@) <= n,
            is_perm ==> forall|y: int| 0 <= y < n && #[trigger] visited@[p[y] as int] ==> visited@[y],
            is_perm ==> forall|j: int| 0 <= j < i ==> visited@[j],
            is_perm ==> forall|x: int|
                0 <= x < n && #[trigger] visited@[x] ==> {
                    let t = info[x];
                    &&& 0 <= t.0 < i
                    &&& t.1 < t.2
                    &&& perm_iter(p, t.0, t.1) == x
                    &&& perm_iter(p, t.0, t.2) == t.0
                },
            is_perm ==> transpositions == count_true(visited@) - count_leaders(p, i as int),
        decreases n - i,
    {
        if !visited[i] {
            let ghost old_vis = visited@;
            let ghost mut step: Seq<nat> = Seq::new(n as nat, |x: int| 0nat);
            let mut cycle_len: usize = 0;
            let mut curr = i;
            proof {
                lemma_count_true_bound(visited@);
            }
            while !visited[curr]
                invariant
                    n == p.len(),
                    p == perm@,
                    forall|j: int| 0 <= j < p.len() ==> #[trigger] p[j] < p.len(),
                    i < n,
                    curr < n,
                    !old_vis[i as int],
                    visited@.len() == n,
                    old_vis.len() == n,
                    step.len() == n,
                    count_true(visited@) == count_true(old_vis) + cycle_len,
                    count_true(visited@) <= n,
                    curr == perm_iter(p, i as int, cycle_len as nat),
                    cycle_len == 0 ==> curr == i,
                    forall|x: int| 0 <= x < n && #[trigger] old_vis[x] ==> visited@[x],
                    forall|k: nat| #![trigger perm_iter(p, i as int, k)] k < cycle_len ==> {
                        let x = perm_iter(p, i as int, k);
                        &&& 0 <= x < n
                        &&& visited@[x]
                        &&& !old_vis[x]
                        &&& step[x] == k
                    },
                    forall|x: int| 0 <= x < n && #[trigger] visited@[x] && !old_vis[x] ==> step[x] < cycle_len
                        && perm_iter(p, i as int, step[x]) == x,
                decreases n - count_true(visited@),
            {
                proof {
                    lemma_count_true_update(visited@, curr as int);
                    lemma_count_true_bound(visited@.update(curr as int, true));
                    step = step.update(curr as int, cycle_len as nat);
                }
                visited.set(curr, true);
                curr = perm[curr];
                cycle_len = cycle_len + 1;
                proof {
                    assert forall|k: nat| #![trigger perm_iter(p, i as int, k)] k < cycle_len implies {
                        let x = perm_iter(p, i as int, k);
                        &&& 0 <= x < n
                        &&& visited@[x]
                        &&& !old_vis[x]
                        &&& step[x] == k
                    } by {
                        lemma_perm_iter_range(p, i as int, k);
                    }
                }
            }
            let ghost len = cycle_len as nat;
            proof {
                assert(cycle_len >= 1);
                assert(perm_iter(p, i as int, 0) == i);
                assert(visited@[i as int]);
                if is_perm {
                    let last = perm_iter(p, i as int, (len - 1) as nat);
                    lemma_perm_iter_range(p, i as int, (len - 1) as nat);
                    // the walk closes on its start
                    if old_vis[curr as int] {
                        assert(visited@[last]);
                        assert(old_vis[p[last] as int]);
                    } else {
                        let m = step[curr as int];
                        if m > 0 {
                            lemma_perm_iter_range(p, i as int, (m - 1) as nat);
                            let a = perm_iter(p, i as int, (m - 1) as nat);
                            assert(p[a] == p[last]);
                            assert(a == last);
                            assert(step[a] == m - 1);
                            assert(step[last] == len - 1);
                        }
                    }
                    assert(curr == i);
                    assert(perm_iter(p, i as int, len) == i);
                    assert forall|j: int| 0 <= j < i + 1 implies visited@[j] by {
                        if j < i {
                            assert(old_vis[j]);
                        }
                    }
                    // i leads its cycle
                    assert forall|k: nat| #[trigger] perm_iter(p, i as int, k) >= i by {
                        lemma_perm_iter_range(p, i as int, k);
                        if perm_iter(p, i as int, k) < i {
                            lemma_back_closed(p, old_vis, i as int, k);
                        }
                    }
                    // the visited set stays closed backwards
                    assert forall|y: int| 0 <= y < n && #[trigger] visited@[p[y] as int] implies visited@[y] by {
                        let py = p[y] as int;
                        if !old_vis[py] {
                            let m = step[py];
                            if m > 0 {
                                lemma_perm_iter_range(p, i as int, (m - 1) as nat);
                                let a = perm_iter(p, i as int, (m - 1) as nat);
                                assert(p[a] == p[y]);
                            } else {
                                assert(p[last] == p[y]);
                            }
                        }
                    }
                }
                info = Seq::new(n as nat, |x: int|
                    if 0 <= x < n && visited@[x] && !old_vis[x] { (i as int, step[x], len) } else { info[x] });
                assert(count_leaders(p, i + 1) == count_leaders(p, i as int) + if is_cycle_leader(p, i as int) { 1nat } else { 0nat });
            }
            transpositions = transpositions + cycle_len - 1;
        } else {
            proof {
                if is_perm {
                    let t = info[i as int];
                    lemma_perm_iter_add(p, t.0, t.1, (t.2 - t.1) as nat);
                    assert(perm_iter(p, i as int, (t.2 - t.1) as nat) < i);
                    assert(!is_cycle_leader(p, i as int));
                }
                assert(count_leaders(p, i + 1) == count_leaders(p, i as int) + if is_cycle_leader(p, i as int) { 1nat } else { 0nat });
            }
        }
        i = i + 1;
    }
    proof {
        if is_perm {
            lemma_count_true_bound(visited@);
        }
    }
    transpositions % 2 == 1
}

pub proof fn lemma_count_true_zero(s: Seq<bool>)
    requires
        forall|x: int| 0 <= x < s.len() ==> !s[x],
    ensures
        count_true(s) == 0,
    decreases s.len(),
{
    if s.len() > 0 {
        lemma_count_true_zero(s.drop_last());
    }
}

} // verus!
