//! The ring all-reduce protocol.
//!
//! Peers form a ring; each holds one contribution per partition. In
//! the scatter-reduce phase every peer, at each of `n − 1` steps,
//! sends one partition of its running sum to its predecessor and folds
//! the partition it receives from its successor into its own
//! contribution; in the all-gather phase the completed sums circulate
//! for another `n − 1` steps. After both phases every peer holds the
//! total of every partition — proved here over the exact element
//! model, together with the step index formulas, the pipelined request
//! scheduling state machine, and the pass-count formula.

use vstd::prelude::*;

verus! {

use crate::reduce::all_len;
use crate::reduce::views;

/// The sum of contributions of `m` consecutive peers starting at peer
/// `start` (taken around the ring), for partition `p`.
pub open spec fn win_sum(c: Seq<Seq<i64>>, start: int, m: int, p: int) -> int
    recommends
        c.len() > 0,
    decreases m,
{
    if m <= 0 {
        0
    } else {
        c[start % c.len() as int][p] + win_sum(c, start + 1, m - 1, p)
    }
}

/// The total contribution to partition `p`: the sum around the whole
/// ring.
pub open spec fn ring_total(c: Seq<Seq<i64>>, p: int) -> int {
    win_sum(c, 0, c.len() as int, p)
}

/// Every window sum of every partition fits the element type; since
/// the protocol only ever materializes window sums, this is exactly
/// the absence of overflow along both phases.
pub open spec fn ring_sums_fit(c: Seq<Seq<i64>>) -> bool {
    forall|k: int, m: int, p: int|
        0 <= k <= c.len() && 0 <= m <= c.len() && 0 <= p < c.len() ==> i64::MIN
            <= #[trigger] win_sum(c, k, m, p) <= i64::MAX
}

/// A window sum depends on its start only through the residue of the
/// start.
pub proof fn lemma_win_sum_start_mod(c: Seq<Seq<i64>>, a: int, b: int, m: int, p: int)
    requires
        c.len() > 0,
        a % c.len() as int == b % c.len() as int,
    ensures
        win_sum(c, a, m, p) == win_sum(c, b, m, p),
    decreases m,
{
    let n = c.len() as int;
    if m <= 0 {
    } else {
        vstd::arithmetic::div_mod::lemma_add_mod_noop(a, 1, n);
        vstd::arithmetic::div_mod::lemma_add_mod_noop(b, 1, n);
        lemma_win_sum_start_mod(c, a + 1, b + 1, m - 1, p);
    }
}

/// Extending a window by one peer at its far end adds that peer's
/// contribution.
pub proof fn lemma_win_sum_append(c: Seq<Seq<i64>>, a: int, m: int, p: int)
    requires
        c.len() > 0,
        0 <= m,
    ensures
        win_sum(c, a, m + 1, p) == win_sum(c, a, m, p) + c[(a + m) % c.len() as int][p],
    decreases m,
{
    let n = c.len() as int;
    if m == 0 {
        assert(win_sum(c, a, 1, p) == c[a % n][p] + win_sum(c, a + 1, 0, p));
    } else {
        lemma_win_sum_append(c, a + 1, m - 1, p);
        assert(win_sum(c, a, m + 1, p) == c[a % n][p] + win_sum(c, a + 1, m, p));
        assert(win_sum(c, a, m, p) == c[a % n][p] + win_sum(c, a + 1, m - 1, p));
    }
}

/// A full circle around the ring sums the same values from any start:
/// every peer computes the same total.
pub proof fn lemma_win_sum_full_circle(c: Seq<Seq<i64>>, k: int, p: int)
    requires
        c.len() > 0,
        0 <= k,
    ensures
        win_sum(c, k, c.len() as int, p) == ring_total(c, p),
    decreases k,
{
    let n = c.len() as int;
    if k == 0 {
    } else {
        lemma_win_sum_full_circle(c, k - 1, p);
        // one rotation: win_sum(k - 1, n) == win_sum(k, n)
        lemma_win_sum_append(c, k, n - 1, p);
        vstd::arithmetic::div_mod::lemma_mod_multiples_vanish(1, k - 1, n);
        assert((k - 1 + n) % n == (k - 1) % n);
        assert(win_sum(c, k - 1, n, p) == c[(k - 1) % n][p] + win_sum(c, k, n - 1, p));
        assert(win_sum(c, k, n, p) == win_sum(c, k, n - 1, p) + c[(k - 1 + n) % n][p]);
    }
}

/// Window sums over elements bounded by `b` are bounded by `m · b`:
/// callers use this to discharge `ring_sums_fit` from a bound on the
/// contributions.
pub proof fn lemma_win_sum_bound(c: Seq<Seq<i64>>, b: int, a: int, m: int, p: int)
    requires
        c.len() > 0,
        0 <= b,
        0 <= m,
        0 <= p,
        forall|i: int, j: int|
            0 <= i < c.len() && 0 <= j < c[i].len() ==> -b <= #[trigger] c[i][j] <= b,
        forall|i: int| 0 <= i < c.len() ==> p < (#[trigger] c[i]).len(),
    ensures
        -(m * b) <= win_sum(c, a, m, p) <= m * b,
    decreases m,
{
    let n = c.len() as int;
    if m <= 0 {
    } else {
        lemma_win_sum_bound(c, b, a + 1, m - 1, p);
        vstd::arithmetic::div_mod::lemma_mod_bound(a, n);
        assert(-b <= c[a % n][p] <= b);
        assert((m - 1) * b + b == m * b) by (nonlinear_arith);
    }
}

/// With the seeded contributions of the bench ring — peer `j`
/// contributes `j + 1` to every partition — the total at every
/// partition is `n (n + 1) / 2`, stated multiplied out.
pub proof fn lemma_ring_seeded_total(c: Seq<Seq<i64>>, p: int)
    requires
        c.len() > 0,
        0 <= p,
        forall|i: int| 0 <= i < c.len() ==> p < (#[trigger] c[i]).len(),
        forall|i: int, j: int|
            0 <= i < c.len() && 0 <= j < c[i].len() ==> #[trigger] c[i][j] == i + 1,
    ensures
        2 * ring_total(c, p) == c.len() * (c.len() + 1),
{
    lemma_seeded_win_sum(c, 0, c.len() as int, p);
}

proof fn lemma_seeded_win_sum(c: Seq<Seq<i64>>, a: int, m: int, p: int)
    requires
        c.len() > 0,
        0 <= a,
        0 <= m,
        a + m <= c.len(),
        0 <= p,
        forall|i: int| 0 <= i < c.len() ==> p < (#[trigger] c[i]).len(),
        forall|i: int, j: int|
            0 <= i < c.len() && 0 <= j < c[i].len() ==> #[trigger] c[i][j] == i + 1,
    ensures
        2 * win_sum(c, a, m, p) == (a + m) * (a + m + 1) - a * (a + 1),
    decreases m,
{
    let n = c.len() as int;
    if m == 0 {
    } else {
        vstd::arithmetic::div_mod::lemma_small_mod(a as nat, n as nat);
        assert(c[a % n][p] == a + 1);
        lemma_seeded_win_sum(c, a + 1, m - 1, p);
        assert(2 * (a + 1) + ((a + m) * (a + m + 1) - (a + 1) * (a + 2)) == (a + m) * (a + m + 1)
            - a * (a + 1)) by (nonlinear_arith);
    }
}

/// The partition a peer receives at scatter-reduce step `step`:
/// `(nrank + ring_rank + step) mod nrank`.
pub fn scatter_recv_part(nrank: usize, ring_rank: usize, step: usize) -> (r: usize)
    requires
        1 <= nrank,
        nrank <= usize::MAX / 4,
        ring_rank <= nrank,
        step < nrank,
    ensures
        r < nrank,
        r as int == (nrank + ring_rank + step) as int % nrank as int,
{
    proof {
        vstd::arithmetic::div_mod::lemma_mod_bound((nrank + ring_rank + step) as int, nrank as int);
    }
    (nrank + ring_rank + step) % nrank
}

/// The partition a peer sends at scatter-reduce step `step`:
/// `(nrank + ring_rank + step − 1) mod nrank`.
pub fn scatter_send_part(nrank: usize, ring_rank: usize, step: usize) -> (r: usize)
    requires
        1 <= nrank,
        nrank <= usize::MAX / 4,
        ring_rank <= nrank,
        step < nrank,
    ensures
        r < nrank,
        r as int == (nrank + ring_rank + step - 1) as int % nrank as int,
{
    proof {
        vstd::arithmetic::div_mod::lemma_mod_bound(
            (nrank + ring_rank + step - 1) as int,
            nrank as int,
        );
    }
    (nrank + ring_rank + step - 1) % nrank
}

/// The partition a peer receives at all-gather step `step`:
/// `(nrank − 1 + nrank + ring_rank + step) mod nrank`.
pub fn gather_recv_part(nrank: usize, ring_rank: usize, step: usize) -> (r: usize)
    requires
        1 <= nrank,
        nrank <= usize::MAX / 4,
        ring_rank <= nrank,
        step < nrank,
    ensures
        r < nrank,
        r as int == (nrank - 1 + nrank + ring_rank + step) as int % nrank as int,
{
    proof {
        vstd::arithmetic::div_mod::lemma_mod_bound(
            (nrank - 1 + nrank + ring_rank + step) as int,
            nrank as int,
        );
    }
    (nrank - 1 + nrank + ring_rank + step) % nrank
}

/// The partition a peer sends at all-gather step `step`:
/// `(nrank − 1 + nrank + ring_rank + step − 1) mod nrank`.
pub fn gather_send_part(nrank: usize, ring_rank: usize, step: usize) -> (r: usize)
    requires
        1 <= nrank,
        nrank <= usize::MAX / 4,
        ring_rank <= nrank,
        step < nrank,
    ensures
        r < nrank,
        r as int == (nrank - 1 + nrank + ring_rank + step - 1) as int % nrank as int,
{
    proof {
        vstd::arithmetic::div_mod::lemma_mod_bound(
            (nrank - 1 + nrank + ring_rank + step - 1) as int,
            nrank as int,
        );
    }
    (nrank - 1 + nrank + ring_rank + step - 1) % nrank
}

/// How many passes one communication task makes: the configured try
/// count, spread over the task list, divided among the in-flight
/// request slots and the parallel sub-rings.
pub fn ring_try_count(try_count: usize, ntasks: usize, nreq: usize, nring: usize) -> (r: usize)
    requires
        1 <= nreq,
        1 <= nring,
        try_count * ntasks <= usize::MAX,
    ensures
        r == try_count * ntasks / nreq as int / nring as int,
{
    proof {
        vstd::arithmetic::div_mod::lemma_div_is_ordered(
            0,
            try_count * ntasks as int,
            nreq as int,
        );
    }
    try_count * ntasks / nreq / nring
}

/// Shifting a residue back into a sum: `((a mod n) + b) mod n` is
/// `(a + b) mod n`.
pub proof fn lemma_mod_shift_add(a: int, b: int, n: int)
    requires
        1 <= n,
    ensures
        (a % n + b) % n == (a + b) % n,
{
    vstd::arithmetic::div_mod::lemma_mod_twice(a, n);
    vstd::arithmetic::div_mod::lemma_add_mod_noop(a % n, b, n);
    vstd::arithmetic::div_mod::lemma_add_mod_noop(a, b, n);
}

/// What peer `k` holds at partition `p` once `s` scatter-reduce steps
/// are done: the window sum it has folded if it has received that
/// partition already, its own contribution otherwise.
spec fn scatter_val(c: Seq<Seq<i64>>, k: int, p: int, s: int) -> int {
    let n = c.len() as int;
    let t = (p - k) % n;
    if t < s {
        win_sum(c, k, t + 2, p)
    } else {
        c[k][p] as int
    }
}

/// What peer `k` holds at partition `p` once `s` all-gather steps are
/// done: the ring total if that partition has circulated to it, its
/// scatter-phase value otherwise.
spec fn gather_val(c: Seq<Seq<i64>>, k: int, p: int, s: int) -> int {
    let n = c.len() as int;
    let tg = (p - k + 1) % n;
    if tg < s {
        ring_total(c, p)
    } else {
        scatter_val(c, k, p, n - 1)
    }
}

/// A copy of a buffer row.
fn copy_row(src: &Vec<i64>) -> (r: Vec<i64>)
    ensures
        r@ == src@,
{
    let mut r: Vec<i64> = Vec::new();
    let mut k: usize = 0;
    while k < src.len()
        invariant
            k <= src@.len(),
            r@.len() == k,
            forall|i: int| 0 <= i < k ==> r@[i] == src@[i],
        decreases src@.len() - k,
    {
        r.push(src[k]);
        k += 1;
    }
    proof {
        assert(r@ =~= src@);
    }
    r
}

/// A copy of a buffer row with one element replaced.
fn row_with(src: &Vec<i64>, idx: usize, v: i64) -> (r: Vec<i64>)
    requires
        idx < src@.len(),
    ensures
        r@ == src@.update(idx as int, v),
{
    let mut r = copy_row(src);
    r.set(idx, v);
    r
}

/// Runs both phases of the ring all-reduce over the exact element
/// model, one element per partition: peer `k` of `n` starts with the
/// contributions `contribs[k]`, and after `n − 1` scatter-reduce steps
/// and `n − 1` all-gather steps every peer holds the total of every
/// partition.
pub fn ring_all_reduce(contribs: &Vec<Vec<i64>>) -> (accs: Vec<Vec<i64>>)
    requires
        1 <= contribs@.len(),
        contribs@.len() <= usize::MAX / 4,
        all_len(views(contribs@), contribs@.len() as int),
        ring_sums_fit(views(contribs@)),
    ensures
        accs@.len() == contribs@.len(),
        forall|k: int| 0 <= k < accs@.len() ==> (#[trigger] accs@[k])@.len() == contribs@.len(),
        forall|k: int, p: int|
            0 <= k < contribs@.len() && 0 <= p < contribs@.len() ==> #[trigger] accs@[k]@[p]
                == ring_total(views(contribs@), p),
{
    let ghost c = views(contribs@);
    let n = contribs.len();
    proof {
        assert forall|k: int| 0 <= k < n implies (#[trigger] contribs@[k])@ == c[k] by {}
    }

    // Every peer starts from its own contribution.
    let mut accs: Vec<Vec<i64>> = Vec::new();
    let mut k0: usize = 0;
    while k0 < n
        invariant
            n == c.len(),
            c == views(contribs@),
            contribs@.len() == n,
            all_len(c, n as int),
            k0 <= n,
            accs@.len() == k0,
            forall|i: int| 0 <= i < k0 ==> (#[trigger] accs@[i])@ == c[i],
        decreases n - k0,
    {
        accs.push(copy_row(&contribs[k0]));
        k0 += 1;
    }

    // Scatter-reduce: peer k receives partition (k + s) mod n from its
    // successor and folds it onto its own contribution.
    let mut s: usize = 0;
    while s < n - 1
        invariant
            1 <= n,
            n <= usize::MAX / 4,
            n == c.len(),
            c == views(contribs@),
            contribs@.len() == n,
            all_len(c, n as int),
            ring_sums_fit(c),
            s <= n - 1,
            accs@.len() == n,
            forall|k: int| 0 <= k < n ==> (#[trigger] accs@[k])@.len() == n,
            forall|k: int, p: int|
                0 <= k < n && 0 <= p < n ==> #[trigger] accs@[k]@[p] == scatter_val(
                    c,
                    k,
                    p,
                    s as int,
                ),
        decreases n - 1 - s,
    {
        let ghost ni = n as int;
        let ghost si = s as int;
        // What each peer sends this step: at step 0 its contribution
        // to the send partition, afterwards the window it folded last
        // step.
        let mut sent: Vec<i64> = Vec::new();
        let mut k: usize = 0;
        while k < n
            invariant
                1 <= n,
                n <= usize::MAX / 4,
                n == c.len(),
                c == views(contribs@),
                contribs@.len() == n,
                all_len(c, n as int),
                ring_sums_fit(c),
                s < n - 1,
                ni == n as int,
                si == s as int,
                k <= n,
                accs@.len() == n,
                forall|i: int| 0 <= i < n ==> (#[trigger] accs@[i])@.len() == n,
                forall|i: int, p: int|
                    0 <= i < n && 0 <= p < n ==> #[trigger] accs@[i]@[p] == scatter_val(
                        c,
                        i,
                        p,
                        si,
                    ),
                sent@.len() == k,
                forall|i: int|
                    0 <= i < k ==> #[trigger] sent@[i] == win_sum(
                        c,
                        i,
                        si + 1,
                        (i + si + ni - 1) % ni,
                    ),
            decreases n - k,
        {
            let sp = (k + s + n - 1) % n;
            proof {
                let ki = k as int;
                vstd::arithmetic::div_mod::lemma_mod_bound(ki + si + ni - 1, ni);
                vstd::arithmetic::div_mod::lemma_small_mod(k as nat, n as nat);
                assert(contribs@[ki]@ == c[ki]);
                if s == 0 {
                    assert(win_sum(c, ki, 1, sp as int) == c[ki % ni][sp as int] + win_sum(
                        c,
                        ki + 1,
                        0,
                        sp as int,
                    ));
                } else {
                    // sp == (k + s - 1) mod n, the partition folded at
                    // the previous step: its window is s + 1 wide.
                    vstd::arithmetic::div_mod::lemma_mod_multiples_vanish(1, ki + si - 1, ni);
                    assert((ki + si + ni - 1) % ni == (ki + si - 1) % ni);
                    vstd::arithmetic::div_mod::lemma_sub_mod_noop(ki + si - 1, ki, ni);
                    vstd::arithmetic::div_mod::lemma_mod_twice(ki + si - 1, ni);
                    vstd::arithmetic::div_mod::lemma_small_mod((s - 1) as nat, n as nat);
                    assert((sp as int - ki) % ni == si - 1);
                }
            }
            let v = if s == 0 {
                contribs[k][sp]
            } else {
                accs[k][sp]
            };
            sent.push(v);
            k += 1;
        }
        // Fold the received partition onto the local contribution.
        let mut k: usize = 0;
        while k < n
            invariant
                1 <= n,
                n <= usize::MAX / 4,
                n == c.len(),
                c == views(contribs@),
                contribs@.len() == n,
                all_len(c, n as int),
                ring_sums_fit(c),
                s < n - 1,
                ni == n as int,
                si == s as int,
                k <= n,
                accs@.len() == n,
                forall|i: int| 0 <= i < n ==> (#[trigger] accs@[i])@.len() == n,
                sent@.len() == n,
                forall|i: int|
                    0 <= i < n ==> #[trigger] sent@[i] == win_sum(
                        c,
                        i,
                        si + 1,
                        (i + si + ni - 1) % ni,
                    ),
                forall|k2: int, p: int|
                    0 <= k2 < n && 0 <= p < n ==> #[trigger] accs@[k2]@[p] == scatter_val(
                        c,
                        k2,
                        p,
                        if k2 < k {
                            si + 1
                        } else {
                            si
                        },
                    ),
            decreases n - k,
        {
            let rp = (k + s) % n;
            let from = (k + 1) % n;
            let ghost ki = k as int;
            let ghost rpi = rp as int;
            proof {
                vstd::arithmetic::div_mod::lemma_mod_bound(ki + si, ni);
                vstd::arithmetic::div_mod::lemma_mod_bound(ki + 1, ni);
                vstd::arithmetic::div_mod::lemma_small_mod(k as nat, n as nat);
                assert(contribs@[ki]@ == c[ki]);
                // the successor's send partition is exactly rp
                let fi = (ki + 1) % ni;
                lemma_mod_shift_add(ki + 1, si + ni - 1, ni);
                assert((fi + si + ni - 1) % ni == (ki + si + ni) % ni);
                vstd::arithmetic::div_mod::lemma_mod_multiples_vanish(1, ki + si, ni);
                assert((ki + si + ni) % ni == (ki + si) % ni);
                // and its window starts at k + 1 wherever that lands
                vstd::arithmetic::div_mod::lemma_mod_twice(ki + 1, ni);
                lemma_win_sum_start_mod(c, fi, ki + 1, si + 1, rpi);
                assert(sent@[fi] == win_sum(c, ki + 1, si + 1, rpi));
                // folding the local contribution widens the window by one
                assert(win_sum(c, ki, si + 2, rpi) == c[ki % ni][rpi] + win_sum(
                    c,
                    ki + 1,
                    si + 1,
                    rpi,
                ));
                assert(i64::MIN <= win_sum(c, ki, si + 2, rpi) <= i64::MAX);
            }
            let v = contribs[k][rp] + sent[from];
            let row = row_with(&accs[k], rp, v);
            accs.set(k, row);
            proof {
                assert forall|k2: int, p: int|
                    0 <= k2 < n && 0 <= p < n implies #[trigger] accs@[k2]@[p] == scatter_val(
                    c,
                    k2,
                    p,
                    if k2 < ki + 1 {
                        si + 1
                    } else {
                        si
                    },
                ) by {
                    if k2 == ki {
                        let t = (p - ki) % ni;
                        vstd::arithmetic::div_mod::lemma_mod_bound(p - ki, ni);
                        if p == rpi {
                            // the partition just folded: t == s
                            vstd::arithmetic::div_mod::lemma_sub_mod_noop(ki + si, ki, ni);
                            vstd::arithmetic::div_mod::lemma_mod_twice(ki + si, ni);
                            vstd::arithmetic::div_mod::lemma_small_mod(s as nat, n as nat);
                            assert(t == si);
                        } else {
                            // any other partition keeps its class
                            if t == si {
                                lemma_mod_shift_add(p - ki, ki, ni);
                                vstd::arithmetic::div_mod::lemma_small_mod(p as nat, n as nat);
                                assert(p % ni == (ki + si) % ni);
                                assert(p == rpi);
                            }
                        }
                    }
                }
            }
            k += 1;
        }
        s += 1;
        proof {
            assert forall|k2: int, p: int|
                0 <= k2 < n && 0 <= p < n implies #[trigger] accs@[k2]@[p] == scatter_val(
                c,
                k2,
                p,
                s as int,
            ) by {}
        }
    }

    // All-gather: the completed totals circulate; each received
    // partition is stored directly.
    let mut s: usize = 0;
    while s < n - 1
        invariant
            1 <= n,
            n <= usize::MAX / 4,
            n == c.len(),
            c == views(contribs@),
            contribs@.len() == n,
            all_len(c, n as int),
            ring_sums_fit(c),
            s <= n - 1,
            accs@.len() == n,
            forall|k: int| 0 <= k < n ==> (#[trigger] accs@[k])@.len() == n,
            forall|k: int, p: int|
                0 <= k < n && 0 <= p < n ==> #[trigger] accs@[k]@[p] == gather_val(
                    c,
                    k,
                    p,
                    s as int,
                ),
        decreases n - 1 - s,
    {
        let ghost ni = n as int;
        let ghost si = s as int;
        let mut sent: Vec<i64> = Vec::new();
        let mut k: usize = 0;
        while k < n
            invariant
                1 <= n,
                n <= usize::MAX / 4,
                n == c.len(),
                c == views(contribs@),
                contribs@.len() == n,
                all_len(c, n as int),
                ring_sums_fit(c),
                s < n - 1,
                ni == n as int,
                si == s as int,
                k <= n,
                accs@.len() == n,
                forall|i: int| 0 <= i < n ==> (#[trigger] accs@[i])@.len() == n,
                forall|i: int, p: int|
                    0 <= i < n && 0 <= p < n ==> #[trigger] accs@[i]@[p] == gather_val(
                        c,
                        i,
                        p,
                        si,
                    ),
                sent@.len() == k,
                forall|i: int|
                    0 <= i < k ==> #[trigger] sent@[i] == ring_total(
                        c,
                        (i + si + ni - 2) % ni,
                    ),
            decreases n - k,
        {
            let sp = (k + s + n - 2) % n;
            proof {
                let ki = k as int;
                let spi = sp as int;
                vstd::arithmetic::div_mod::lemma_mod_bound(ki + si + ni - 2, ni);
                vstd::arithmetic::div_mod::lemma_small_mod(k as nat, n as nat);
                // the gather class of the send partition
                lemma_mod_shift_add(ki + si + ni - 2, 1 - ki, ni);
                assert((spi - ki + 1) % ni == (si + ni - 1) % ni);
                if s == 0 {
                    // not yet circulated: this is the partition the
                    // scatter phase completed, already the total
                    vstd::arithmetic::div_mod::lemma_small_mod((n - 1) as nat, n as nat);
                    assert((si + ni - 1) % ni == ni - 1);
                    // its scatter class: t == n - 2, window n wide
                    vstd::arithmetic::div_mod::lemma_sub_mod_noop(ki + si + ni - 2, ki, ni);
                    vstd::arithmetic::div_mod::lemma_small_mod((n - 2) as nat, n as nat);
                    assert((spi - ki) % ni == ni - 2);
                    lemma_win_sum_full_circle(c, ki, spi);
                } else {
                    // circulated at the previous gather step
                    vstd::arithmetic::div_mod::lemma_mod_multiples_vanish(1, si - 1, ni);
                    vstd::arithmetic::div_mod::lemma_small_mod((s - 1) as nat, n as nat);
                    assert((si + ni - 1) % ni == si - 1);
                }
            }
            let v = accs[k][sp];
            sent.push(v);
            k += 1;
        }
        let mut k: usize = 0;
        while k < n
            invariant
                1 <= n,
                n <= usize::MAX / 4,
                n == c.len(),
                c == views(contribs@),
                contribs@.len() == n,
                all_len(c, n as int),
                ring_sums_fit(c),
                s < n - 1,
                ni == n as int,
                si == s as int,
                k <= n,
                accs@.len() == n,
                forall|i: int| 0 <= i < n ==> (#[trigger] accs@[i])@.len() == n,
                sent@.len() == n,
                forall|i: int|
                    0 <= i < n ==> #[trigger] sent@[i] == ring_total(
                        c,
                        (i + si + ni - 2) % ni,
                    ),
                forall|k2: int, p: int|
                    0 <= k2 < n && 0 <= p < n ==> #[trigger] accs@[k2]@[p] == gather_val(
                        c,
                        k2,
                        p,
                        if k2 < k {
                            si + 1
                        } else {
                            si
                        },
                    ),
            decreases n - k,
        {
            let rp = (k + s + n - 1) % n;
            let from = (k + 1) % n;
            let ghost ki = k as int;
            let ghost rpi = rp as int;
            proof {
                vstd::arithmetic::div_mod::lemma_mod_bound(ki + si + ni - 1, ni);
                vstd::arithmetic::div_mod::lemma_mod_bound(ki + 1, ni);
                let fi = (ki + 1) % ni;
                // the successor's send partition is exactly rp
                lemma_mod_shift_add(ki + 1, si + ni - 2, ni);
                assert((fi + si + ni - 2) % ni == (ki + si + ni - 1) % ni);
                assert(sent@[fi] == ring_total(c, rpi));
            }
            let v = sent[from];
            let row = row_with(&accs[k], rp, v);
            accs.set(k, row);
            proof {
                assert forall|k2: int, p: int|
                    0 <= k2 < n && 0 <= p < n implies #[trigger] accs@[k2]@[p] == gather_val(
                    c,
                    k2,
                    p,
                    if k2 < ki + 1 {
                        si + 1
                    } else {
                        si
                    },
                ) by {
                    if k2 == ki {
                        let tg = (p - ki + 1) % ni;
                        vstd::arithmetic::div_mod::lemma_mod_bound(p - ki + 1, ni);
                        if p == rpi {
                            // the partition just received: tg == s
                            lemma_mod_shift_add(ki + si + ni - 1, 1 - ki, ni);
                            vstd::arithmetic::div_mod::lemma_mod_multiples_vanish(1, si, ni);
                            vstd::arithmetic::div_mod::lemma_small_mod(s as nat, n as nat);
                            assert(tg == si);
                        } else {
                            if tg == si {
                                lemma_mod_shift_add(p - ki + 1, ki + ni - 1, ni);
                                vstd::arithmetic::div_mod::lemma_mod_multiples_vanish(1, p, ni);
                                vstd::arithmetic::div_mod::lemma_small_mod(p as nat, n as nat);
                                assert((p + ni) % ni == (ki + si + ni - 1) % ni);
                                assert(p == rpi);
                            }
                        }
                    }
                }
            }
            k += 1;
        }
        s += 1;
        proof {
            assert forall|k2: int, p: int|
                0 <= k2 < n && 0 <= p < n implies #[trigger] accs@[k2]@[p] == gather_val(
                c,
                k2,
                p,
                s as int,
            ) by {}
        }
    }

    // Every partition of every peer is now the ring total.
    proof {
        let ni = n as int;
        assert forall|k: int, p: int|
            0 <= k < n && 0 <= p < n implies #[trigger] accs@[k]@[p] == ring_total(c, p) by {
            let tg = (p - k + 1) % ni;
            vstd::arithmetic::div_mod::lemma_mod_bound(p - k + 1, ni);
            if tg < ni - 1 {
            } else {
                // the one partition the gather never circulated is the
                // one the scatter phase completed in full
                let t = (p - k) % ni;
                vstd::arithmetic::div_mod::lemma_mod_bound(p - k, ni);
                if n == 1 {
                    vstd::arithmetic::div_mod::lemma_small_mod(0nat, 1nat);
                    assert(ring_total(c, p) == c[0][p] + win_sum(c, 1, 0, p));
                } else {
                    vstd::arithmetic::div_mod::lemma_sub_mod_noop(p - k + 1, 1, ni);
                    vstd::arithmetic::div_mod::lemma_mod_twice(p - k + 1, ni);
                    vstd::arithmetic::div_mod::lemma_small_mod(1nat, n as nat);
                    vstd::arithmetic::div_mod::lemma_small_mod((n - 2) as nat, n as nat);
                    assert(t == ni - 2);
                    lemma_win_sum_full_circle(c, k, p);
                }
            }
        }
    }
    accs
}

/// One communication task of the ring pipeline. A task serves
/// `ntasks` buffer entries round-robin with at most one batch of
/// requests in flight, making `try_count` passes in all. It may issue
/// a batch only when the entry's readiness word holds the stage's
/// ready value and the shared issue token names it — issue order stays
/// global across the `nreq` in-flight tasks — and when the batch
/// completes the entry is handed to the opposite stage and the round
/// robin advances.
pub struct TaskState {
    /// Position among the `nreq` in-flight tasks.
    pub task_id: usize,
    /// How many in-flight tasks share the issue token.
    pub nreq: usize,
    /// How many buffer entries the task serves round-robin.
    pub ntasks: usize,
    /// Passes to make in all.
    pub try_count: usize,
    /// Size of the reducing pool: one of the two values a readiness
    /// word alternates between.
    pub reduce_threads: usize,
    /// Whether the task moves data toward the reducer.
    pub is_recv: bool,
    /// Round-robin position among the buffer entries.
    pub next: usize,
    /// Completed passes.
    pub count: usize,
    /// Issued passes.
    pub reqcount: usize,
    /// Whether a batch of requests is outstanding.
    pub in_flight: bool,
}

impl TaskState {
    /// The state is consistent: indices in range, and the issued count
    /// leads the completed count by exactly the outstanding batch.
    pub open spec fn wf(&self) -> bool {
        &&& 1 <= self.nreq
        &&& self.task_id < self.nreq
        &&& 1 <= self.ntasks
        &&& self.next < self.ntasks
        &&& self.reqcount == self.count + (if self.in_flight {
            1int
        } else {
            0int
        })
        &&& self.reqcount <= self.try_count
    }

    /// All passes are done.
    pub open spec fn finished(&self) -> bool {
        self.count == self.try_count
    }

    /// The readiness value that lets the task issue on an entry.
    pub open spec fn ready_value(&self) -> usize {
        if self.is_recv {
            0
        } else {
            self.reduce_threads
        }
    }

    /// The readiness value completion stores for the opposite stage.
    pub open spec fn done_value(&self) -> usize {
        if self.is_recv {
            self.reduce_threads
        } else {
            0
        }
    }

    /// A fresh task: nothing issued, nothing completed, entry zero up
    /// next.
    pub fn new(
        task_id: usize,
        nreq: usize,
        ntasks: usize,
        try_count: usize,
        reduce_threads: usize,
        is_recv: bool,
    ) -> (r: TaskState)
        requires
            1 <= nreq,
            task_id < nreq,
            1 <= ntasks,
        ensures
            r.wf(),
            r.task_id == task_id,
            r.nreq == nreq,
            r.ntasks == ntasks,
            r.try_count == try_count,
            r.reduce_threads == reduce_threads,
            r.is_recv == is_recv,
            r.next == 0,
            r.count == 0,
            r.reqcount == 0,
            !r.in_flight,
    {
        TaskState {
            task_id,
            nreq,
            ntasks,
            try_count,
            reduce_threads,
            is_recv,
            next: 0,
            count: 0,
            reqcount: 0,
            in_flight: false,
        }
    }

    /// Whether the task may issue its next batch: passes remain, no
    /// batch is outstanding, the current entry's buffers hold the
    /// stage's ready value, and the issue token names the task.
    pub fn can_issue(&self, buf_ready: usize, task_ready: usize) -> (r: bool)
        ensures
            r == (self.reqcount < self.try_count && !self.in_flight && buf_ready
                == self.ready_value() && task_ready == self.task_id),
    {
        let ready_value = if self.is_recv {
            0
        } else {
            self.reduce_threads
        };
        self.reqcount < self.try_count && !self.in_flight && buf_ready == ready_value
            && task_ready == self.task_id
    }

    /// Issues the batch: one more pass is outstanding and the issue
    /// token moves on to the next task. Returns the new token value.
    pub fn issue(&mut self, buf_ready: usize, task_ready: usize) -> (new_task_ready: usize)
        requires
            old(self).wf(),
            old(self).reqcount < old(self).try_count,
            !old(self).in_flight,
            buf_ready == old(self).ready_value(),
            task_ready == old(self).task_id,
        ensures
            final (self).wf(),
            final (self).in_flight,
            final (self).reqcount == old(self).reqcount + 1,
            final (self).count == old(self).count,
            final (self).next == old(self).next,
            final (self).task_id == old(self).task_id,
            final (self).nreq == old(self).nreq,
            final (self).ntasks == old(self).ntasks,
            final (self).try_count == old(self).try_count,
            final (self).reduce_threads == old(self).reduce_threads,
            final (self).is_recv == old(self).is_recv,
            new_task_ready == (old(self).task_id + 1) as int % old(self).nreq as int,
    {
        proof {
            vstd::arithmetic::div_mod::lemma_mod_bound(
                self.task_id + 1,
                self.nreq as int,
            );
        }
        self.reqcount = self.reqcount + 1;
        self.in_flight = true;
        (self.task_id + 1) % self.nreq
    }

    /// The outstanding batch has completed: the pass is counted, the
    /// round robin advances, and the entry's readiness word is to be
    /// stored with the opposite stage's value. Returns whether the
    /// task has now made all its passes, and that readiness value.
    pub fn complete(&mut self) -> (r: (bool, usize))
        requires
            old(self).wf(),
            old(self).in_flight,
        ensures
            final (self).wf(),
            !final (self).in_flight,
            final (self).count == old(self).count + 1,
            final (self).reqcount == old(self).reqcount,
            final (self).next == (old(self).next + 1) as int % old(self).ntasks as int,
            final (self).task_id == old(self).task_id,
            final (self).nreq == old(self).nreq,
            final (self).ntasks == old(self).ntasks,
            final (self).try_count == old(self).try_count,
            final (self).reduce_threads == old(self).reduce_threads,
            final (self).is_recv == old(self).is_recv,
            r.0 == final (self).finished(),
            r.1 == old(self).done_value(),
    {
        proof {
            vstd::arithmetic::div_mod::lemma_mod_bound(self.next + 1, self.ntasks as int);
        }
        self.count = self.count + 1;
        self.in_flight = false;
        self.next = (self.next + 1) % self.ntasks;
        let done_value = if self.is_recv {
            self.reduce_threads
        } else {
            0
        };
        (self.count == self.try_count, done_value)
    }

    /// An unfinished task is never stuck: either a batch is
    /// outstanding, so a completion event moves it, or passes remain
    /// and it issues as soon as its readiness word and the issue token
    /// allow.
    pub proof fn lemma_task_never_stuck(&self)
        requires
            self.wf(),
            !self.finished(),
        ensures
            self.in_flight || self.reqcount < self.try_count,
    {
    }
}

/// Whether a ring reduce worker may take a slot: at least one received
/// batch awaits reduction and not every reduce worker has handed its
/// share of the slot onward.
pub fn ring_reduce_can_fire(recv_ready: usize, send_ready: usize, reduce_threads: usize) -> (r:
    bool)
    ensures
        r == (recv_ready != 0 && send_ready != reduce_threads),
{
    recv_ready != 0 && send_ready != reduce_threads
}

/// A ring reduce worker finishes a slot: one received batch is
/// consumed and one reduced batch is handed to the send loop — the
/// counter moves the fetch-sub and fetch-add of the reduce loop make.
pub fn ring_reduce_step(recv_ready: &mut usize, send_ready: &mut usize, reduce_threads: usize)
    requires
        1 <= *old(recv_ready),
        *old(send_ready) < reduce_threads,
    ensures
        *final (recv_ready) == *old(recv_ready) - 1,
        *final (send_ready) == *old(send_ready) + 1,
{
    *recv_ready = *recv_ready - 1;
    *send_ready = *send_ready + 1;
}

/// The seed of a slot's recv-to-send readiness counter: the slot of
/// the last scatter step starts as if every reduce worker had already
/// handed it onward, so the very first send proceeds from the seeded
/// initial buffer.
pub fn ring_slot_initial(step: usize, nrank: usize, reduce_threads: usize) -> (r: usize)
    requires
        2 <= nrank,
    ensures
        r == if step == nrank - 2 {
            reduce_threads as int
        } else {
            0
        },
{
    if step == nrank - 2 {
        reduce_threads
    } else {
        0
    }
}

/// Ring all-reduce for contributions bounded elementwise by `bound`:
/// the overflow side-condition follows from the bound, since every
/// value the protocol materializes is a window sum of at most
/// ring-size contributions.
pub fn ring_all_reduce_bounded(contribs: &Vec<Vec<i64>>, bound: i64) -> (accs: Vec<Vec<i64>>)
    requires
        1 <= contribs@.len(),
        contribs@.len() <= usize::MAX / 4,
        all_len(views(contribs@), contribs@.len() as int),
        0 <= bound,
        contribs@.len() * bound <= i64::MAX,
        forall|i: int, j: int|
            0 <= i < contribs@.len() && 0 <= j < contribs@.len() ==> -bound <= #[trigger] views(
                contribs@,
            )[i][j] <= bound,
    ensures
        accs@.len() == contribs@.len(),
        forall|k: int| 0 <= k < accs@.len() ==> (#[trigger] accs@[k])@.len() == contribs@.len(),
        forall|k: int, p: int|
            0 <= k < contribs@.len() && 0 <= p < contribs@.len() ==> #[trigger] accs@[k]@[p]
                == ring_total(views(contribs@), p),
{
    proof {
        let c = views(contribs@);
        let n = c.len() as int;
        assert forall|k: int, m: int, p: int|
            0 <= k <= n && 0 <= m <= n && 0 <= p < n implies i64::MIN <= #[trigger] win_sum(
            c,
            k,
            m,
            p,
        ) <= i64::MAX by {
            lemma_win_sum_bound(c, bound as int, k, m, p);
            assert(m * bound <= n * bound && -(n * bound) <= -(m * bound)) by (nonlinear_arith)
                requires
                    m <= n,
                    0 <= bound,
            ;
        }
    }
    ring_all_reduce(contribs)
}

/// Drives the `nreq` in-flight tasks of one communication loop to
/// completion under the canonical polling order, showing the shared
/// issue token never wedges: the token passes each task in turn, every
/// task issues exactly when the token names it, and all tasks finish
/// with exactly `try_count` completed passes.
pub fn run_comm_tasks(
    nreq: usize,
    ntasks: usize,
    try_count: usize,
    reduce_threads: usize,
    is_recv: bool,
) -> (tasks: Vec<TaskState>)
    requires
        1 <= nreq,
        1 <= ntasks,
    ensures
        tasks@.len() == nreq,
        forall|t: int|
            0 <= t < nreq ==> {
                &&& (#[trigger] tasks@[t]).finished()
                &&& tasks@[t].count == try_count
                &&& tasks@[t].reqcount == try_count
                &&& !tasks@[t].in_flight
            },
{
    let mut tasks: Vec<TaskState> = Vec::new();
    let mut t: usize = 0;
    while t < nreq
        invariant
            1 <= nreq,
            1 <= ntasks,
            t <= nreq,
            tasks@.len() == t,
            forall|t2: int|
                0 <= t2 < t ==> {
                    &&& (#[trigger] tasks@[t2]).wf()
                    &&& tasks@[t2].task_id == t2
                    &&& tasks@[t2].nreq == nreq
                    &&& tasks@[t2].try_count == try_count
                    &&& tasks@[t2].reduce_threads == reduce_threads
                    &&& tasks@[t2].is_recv == is_recv
                    &&& tasks@[t2].count == 0
                    &&& !tasks@[t2].in_flight
                },
        decreases nreq - t,
    {
        tasks.push(TaskState::new(t, nreq, ntasks, try_count, reduce_threads, is_recv));
        t += 1;
    }
    let ready_value = if is_recv {
        0
    } else {
        reduce_threads
    };
    let mut token: usize = 0;
    let mut pass: usize = 0;
    while pass < try_count
        invariant
            1 <= nreq,
            1 <= ntasks,
            pass <= try_count,
            token == 0,
            tasks@.len() == nreq,
            ready_value == (if is_recv {
                0int
            } else {
                reduce_threads as int
            }),
            forall|t2: int|
                0 <= t2 < nreq ==> {
                    &&& (#[trigger] tasks@[t2]).wf()
                    &&& tasks@[t2].task_id == t2
                    &&& tasks@[t2].nreq == nreq
                    &&& tasks@[t2].try_count == try_count
                    &&& tasks@[t2].reduce_threads == reduce_threads
                    &&& tasks@[t2].is_recv == is_recv
                    &&& tasks@[t2].count == pass
                    &&& !tasks@[t2].in_flight
                },
        decreases try_count - pass,
    {
        let mut t: usize = 0;
        while t < nreq
            invariant
                1 <= nreq,
                1 <= ntasks,
                pass < try_count,
                t <= nreq,
                token == t % nreq,
                t < nreq ==> token == t,
                tasks@.len() == nreq,
                ready_value == (if is_recv {
                    0int
                } else {
                    reduce_threads as int
                }),
                forall|t2: int|
                    0 <= t2 < nreq ==> {
                        &&& (#[trigger] tasks@[t2]).wf()
                        &&& tasks@[t2].task_id == t2
                        &&& tasks@[t2].nreq == nreq
                        &&& tasks@[t2].try_count == try_count
                        &&& tasks@[t2].reduce_threads == reduce_threads
                        &&& tasks@[t2].is_recv == is_recv
                        &&& tasks@[t2].count == (if t2 < t {
                            pass + 1int
                        } else {
                            pass as int
                        })
                        &&& !tasks@[t2].in_flight
                    },
            decreases nreq - t,
        {
            let mut task = tasks.remove(t);
            // the token names this very task, so it may issue
            token = task.issue(ready_value, token);
            let (done, _) = task.complete();
            proof {
                vstd::arithmetic::div_mod::lemma_mod_bound(t + 1, nreq as int);
                if t + 1 < nreq {
                    vstd::arithmetic::div_mod::lemma_small_mod((t + 1) as nat, nreq as nat);
                }
            }
            tasks.insert(t, task);
            t += 1;
        }
        proof {
            vstd::arithmetic::div_mod::lemma_mod_multiples_vanish(1, 0, nreq as int);
        }
        pass += 1;
    }
    tasks
}

} // verus!
