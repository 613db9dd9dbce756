//! Elementwise reduction.
//!
//! The collective's only tensor semantics is the elementwise sum of
//! the peers' contributions, accumulated in source-index order. This
//! module fixes that meaning over an exact element model (`i64`) and
//! proves the accumulation loop against it; the hardware kernels that
//! perform the same arithmetic over IEEE half and single precision are
//! numeric re-implementations of this contract and live with the
//! process harness, not here.

use vstd::prelude::*;

verus! {

use crate::partitioned_vec::PartitionedVec;

/// The views of a vector of source buffers.
pub open spec fn views(srcs: Seq<Vec<i64>>) -> Seq<Seq<i64>> {
    srcs.map_values(|v: Vec<i64>| v@)
}

/// The sum of column `j` over the first `k` sources.
pub open spec fn col_sum_upto(srcs: Seq<Seq<i64>>, k: int, j: int) -> int
    decreases k,
{
    if k <= 0 {
        0
    } else {
        col_sum_upto(srcs, k - 1, j) + srcs[k - 1][j]
    }
}

/// The sum of column `j` over all sources: what every peer is owed at
/// element `j` of the reduced tensor.
pub open spec fn col_sum(srcs: Seq<Seq<i64>>, j: int) -> int {
    col_sum_upto(srcs, srcs.len() as int, j)
}

/// The sum of a sequence of per-source constants.
pub open spec fn seq_sum(vals: Seq<int>) -> int
    decreases vals.len(),
{
    if vals.len() == 0 {
        0
    } else {
        seq_sum(vals.drop_last()) + vals.last()
    }
}

/// Every prefix sum of every column stays within the element range:
/// the accumulation order is fixed, so this is exactly the absence of
/// overflow along the computation.
pub open spec fn sums_fit(srcs: Seq<Seq<i64>>, n: int) -> bool {
    forall|k: int, j: int|
        0 <= k <= srcs.len() && 0 <= j < n ==> i64::MIN <= #[trigger] col_sum_upto(srcs, k, j)
            <= i64::MAX
}

/// All sources have length `n`.
pub open spec fn all_len(srcs: Seq<Seq<i64>>, n: int) -> bool {
    forall|i: int| 0 <= i < srcs.len() ==> (#[trigger] srcs[i]).len() == n
}

/// Overwrites `dst` with the elementwise sum of `srcs`, first source
/// first: `dst` becomes `srcs[0]`, then each later source is added in
/// index order.
pub fn reduce(dst: &mut Vec<i64>, srcs: &Vec<Vec<i64>>) -> (r: Result<(), ()>)
    requires
        srcs@.len() >= 1,
        all_len(views(srcs@), old(dst)@.len() as int),
        sums_fit(views(srcs@), old(dst)@.len() as int),
    ensures
        r is Ok,
        final(dst)@.len() == old(dst)@.len(),
        forall|j: int|
            0 <= j < final(dst)@.len() ==> final(dst)@[j] == col_sum(views(srcs@), j),
{
    let ghost model = views(srcs@);
    let n = dst.len();
    let mut i: usize = 0;
    while i < srcs.len()
        invariant
            i <= srcs@.len(),
            srcs@.len() >= 1,
            dst@.len() == n,
            n == old(dst)@.len(),
            model == views(srcs@),
            all_len(model, n as int),
            sums_fit(model, n as int),
            i == 0 || forall|j: int| 0 <= j < n ==> dst@[j] == col_sum_upto(model, i as int, j),
        decreases srcs@.len() - i,
    {
        let src = &srcs[i];
        proof {
            assert(model[i as int] == srcs@[i as int]@);
        }
        let mut j: usize = 0;
        while j < n
            invariant
                i < srcs@.len(),
                j <= n,
                srcs@[i as int]@.len() == n,
                dst@.len() == n,
                model == views(srcs@),
                all_len(model, n as int),
                sums_fit(model, n as int),
                src == srcs@[i as int],
                i == 0 || forall|jj: int|
                    j <= jj < n ==> dst@[jj] == col_sum_upto(model, i as int, jj),
                forall|jj: int| 0 <= jj < j ==> dst@[jj] == col_sum_upto(model, i + 1, jj),
            decreases n - j,
        {
            proof {
                assert(col_sum_upto(model, i + 1, j as int) == col_sum_upto(model, i as int, j as int)
                    + model[i as int][j as int]);
                assert(i64::MIN <= col_sum_upto(model, i + 1, j as int) <= i64::MAX);
                assert(i == 0 ==> col_sum_upto(model, i + 1, j as int) == model[0][j as int]);
            }
            let v = if i == 0 {
                src[j]
            } else {
                dst[j] + src[j]
            };
            dst.set(j, v);
            j += 1;
        }
        i += 1;
    }
    Ok(())
}

/// When every source `i` is the constant tensor `vals[i]`, each column
/// sums to the sum of those constants: every peer receives the sum of
/// the per-rank contributions, elementwise.
pub proof fn lemma_col_sum_constant(srcs: Seq<Seq<i64>>, vals: Seq<int>, n: int, j: int)
    requires
        srcs.len() == vals.len(),
        all_len(srcs, n),
        forall|i: int, jj: int|
            0 <= i < srcs.len() && 0 <= jj < n ==> #[trigger] srcs[i][jj] == vals[i],
        0 <= j < n,
    ensures
        col_sum(srcs, j) == seq_sum(vals),
{
    lemma_col_sum_upto_constant(srcs, vals, n, srcs.len() as int, j);
    assert(vals.take(vals.len() as int) =~= vals);
}

proof fn lemma_col_sum_upto_constant(srcs: Seq<Seq<i64>>, vals: Seq<int>, n: int, k: int, j: int)
    requires
        srcs.len() == vals.len(),
        all_len(srcs, n),
        0 <= k <= srcs.len(),
        forall|i: int, jj: int|
            0 <= i < srcs.len() && 0 <= jj < n ==> #[trigger] srcs[i][jj] == vals[i],
        0 <= j < n,
    ensures
        col_sum_upto(srcs, k, j) == seq_sum(vals.take(k)),
    decreases k,
{
    if k == 0 {
        assert(vals.take(k) =~= Seq::<int>::empty());
    } else {
        lemma_col_sum_upto_constant(srcs, vals, n, k - 1, j);
        assert(srcs[k - 1][j] == vals[k - 1]);
        assert(vals.take(k).drop_last() =~= vals.take(k - 1));
        assert(vals.take(k).last() == vals[k - 1]);
    }
}

/// The sum of `n` copies of the same constant is `n` times it: the
/// bench harness, where every rank contributes the same value, is owed
/// exactly rank-count times that value at every element.
pub proof fn lemma_seq_sum_same(vals: Seq<int>, c: int)
    requires
        forall|i: int| 0 <= i < vals.len() ==> vals[i] == c,
    ensures
        seq_sum(vals) == vals.len() * c,
    decreases vals.len(),
{
    if vals.len() == 0 {
    } else {
        lemma_seq_sum_same(vals.drop_last(), c);
        assert(vals.len() * c == (vals.len() - 1) * c + c) by (nonlinear_arith);
    }
}

/// Column sums over bounded elements are bounded: with every element
/// in `[-b, b]`, every prefix sum of a column lies in `[-k·b, k·b]`.
/// Callers use this to discharge `sums_fit`.
pub proof fn lemma_col_sum_upto_bound(srcs: Seq<Seq<i64>>, b: int, n: int, k: int, j: int)
    requires
        0 <= b,
        all_len(srcs, n),
        0 <= k <= srcs.len(),
        0 <= j < n,
        forall|i: int, jj: int|
            0 <= i < srcs.len() && 0 <= jj < n ==> -b <= #[trigger] srcs[i][jj] <= b,
    ensures
        -(k * b) <= col_sum_upto(srcs, k, j) <= k * b,
    decreases k,
{
    if k <= 0 {
    } else {
        lemma_col_sum_upto_bound(srcs, b, n, k - 1, j);
        assert(-b <= srcs[k - 1][j] <= b);
        assert((k - 1) * b + b == k * b) by (nonlinear_arith);
    }
}

/// The partition-`i` views of a set of source buffers.
pub open spec fn part_views(srcs: Seq<PartitionedVec<i64>>, i: int) -> Seq<Seq<i64>> {
    srcs.map_values(|v: PartitionedVec<i64>| v.spec_part(i))
}

/// One reduce worker's unit of work: partition `i` of the output
/// buffer becomes the elementwise sum of partition `i` of every source
/// buffer, and no other partition of the output moves — the frame that
/// lets the reduce workers share one output buffer without contention.
pub fn reduce_partition(
    dst: &mut PartitionedVec<i64>,
    srcs: &Vec<PartitionedVec<i64>>,
    i: usize,
) -> (r: Result<(), ()>)
    requires
        old(dst).wf(),
        i < old(dst).num_parts(),
        srcs@.len() >= 1,
        forall|k: int|
            0 <= k < srcs@.len() ==> {
                &&& (#[trigger] srcs@[k]).wf()
                &&& srcs@[k].num_parts() == old(dst).num_parts()
                &&& srcs@[k]@.len() == old(dst)@.len()
            },
        sums_fit(part_views(srcs@, i as int), old(dst).spec_part_len()),
    ensures
        r is Ok,
        final (dst).wf(),
        final (dst).num_parts() == old(dst).num_parts(),
        final (dst)@.len() == old(dst)@.len(),
        final (dst).spec_part(i as int).len() == old(dst).spec_part_len(),
        forall|j: int|
            0 <= j < old(dst).spec_part_len() ==> final (dst).spec_part(i as int)[j] == col_sum(
                part_views(srcs@, i as int),
                j,
            ),
        forall|p: int|
            0 <= p < old(dst).num_parts() && p != i ==> final (dst).spec_part(p) == old(
                dst,
            ).spec_part(p),
{
    let ghost model = part_views(srcs@, i as int);
    let mut acc: Vec<i64> = dst.part(i);
    let mut parts: Vec<Vec<i64>> = Vec::new();
    let mut k: usize = 0;
    while k < srcs.len()
        invariant
            k <= srcs@.len(),
            dst.wf(),
            i < dst.num_parts(),
            forall|k2: int|
                0 <= k2 < srcs@.len() ==> {
                    &&& (#[trigger] srcs@[k2]).wf()
                    &&& srcs@[k2].num_parts() == dst.num_parts()
                    &&& srcs@[k2]@.len() == dst@.len()
                },
            parts@.len() == k,
            forall|k2: int|
                0 <= k2 < k ==> (#[trigger] parts@[k2])@ == srcs@[k2].spec_part(i as int),
        decreases srcs@.len() - k,
    {
        parts.push(srcs[k].part(i));
        k += 1;
    }
    proof {
        assert(views(parts@) =~= model);
        assert forall|k2: int| 0 <= k2 < srcs@.len() implies (#[trigger] model[k2]).len()
            == acc@.len() by {
            srcs@[k2].lemma_part_in_range(i as int);
            assert(model[k2] == srcs@[k2].spec_part(i as int));
        }
    }
    let r = reduce(&mut acc, &parts);
    dst.set_part(i, &acc);
    r
}

/// Reduction for sources bounded elementwise by `bound`: the overflow
/// side-condition follows from the bound, since every partial sum
/// accumulates at most all the sources.
pub fn reduce_bounded(dst: &mut Vec<i64>, srcs: &Vec<Vec<i64>>, bound: i64) -> (r: Result<
    (),
    (),
>)
    requires
        srcs@.len() >= 1,
        all_len(views(srcs@), old(dst)@.len() as int),
        0 <= bound,
        srcs@.len() * bound <= i64::MAX,
        forall|i: int, j: int|
            0 <= i < srcs@.len() && 0 <= j < old(dst)@.len() ==> -bound <= #[trigger] views(
                srcs@,
            )[i][j] <= bound,
    ensures
        r is Ok,
        final (dst)@.len() == old(dst)@.len(),
        forall|j: int|
            0 <= j < final (dst)@.len() ==> final (dst)@[j] == col_sum(views(srcs@), j),
{
    proof {
        let model = views(srcs@);
        let n = old(dst)@.len() as int;
        let m = model.len() as int;
        assert forall|k: int, j: int|
            0 <= k <= m && 0 <= j < n implies i64::MIN <= #[trigger] col_sum_upto(model, k, j)
            <= i64::MAX by {
            lemma_col_sum_upto_bound(model, bound as int, n, k, j);
            assert(k * bound <= m * bound && -(m * bound) <= -(k * bound)) by (nonlinear_arith)
                requires
                    k <= m,
                    0 <= bound,
            ;
        }
    }
    reduce(dst, srcs)
}

/// The whole-buffer views of a set of source buffers.
pub open spec fn buf_views(srcs: Seq<PartitionedVec<i64>>) -> Seq<Seq<i64>> {
    srcs.map_values(|v: PartitionedVec<i64>| v@)
}

proof fn lemma_col_sum_part_global(
    srcs: Seq<PartitionedVec<i64>>,
    np: int,
    total: int,
    l: int,
    i: int,
    k: int,
    j: int,
)
    requires
        1 <= np,
        total % np == 0,
        l == total / np,
        0 <= i < np,
        0 <= j < l,
        0 <= k <= srcs.len(),
        forall|k2: int|
            0 <= k2 < srcs.len() ==> {
                &&& (#[trigger] srcs[k2]).wf()
                &&& srcs[k2].num_parts() == np
                &&& srcs[k2]@.len() == total
            },
    ensures
        col_sum_upto(part_views(srcs, i), k, j) == col_sum_upto(buf_views(srcs), k, i * l + j),
    decreases k,
{
    if k > 0 {
        lemma_col_sum_part_global(srcs, np, total, l, i, k - 1, j);
        srcs[k - 1].lemma_part_in_range(i);
        assert(part_views(srcs, i)[k - 1] == srcs[k - 1].spec_part(i));
        assert(buf_views(srcs)[k - 1] == srcs[k - 1]@);
        assert(srcs[k - 1].spec_part(i)[j] == srcs[k - 1]@[i * l + j]);
    }
}

/// A full reduce pass over one job, partition by partition as the
/// reduce workers take them: afterwards the whole output buffer is the
/// elementwise sum of the whole source buffers — every rank's tensor
/// contributes once at every element. The sources are bounded
/// elementwise by `bound`, which rules out overflow.
pub fn reduce_job(
    dst: &mut PartitionedVec<i64>,
    srcs: &Vec<PartitionedVec<i64>>,
    bound: i64,
) -> (r: Result<(), ()>)
    requires
        old(dst).wf(),
        srcs@.len() >= 1,
        forall|k: int|
            0 <= k < srcs@.len() ==> {
                &&& (#[trigger] srcs@[k]).wf()
                &&& srcs@[k].num_parts() == old(dst).num_parts()
                &&& srcs@[k]@.len() == old(dst)@.len()
            },
        0 <= bound,
        srcs@.len() * bound <= i64::MAX,
        forall|k: int, j: int|
            0 <= k < srcs@.len() && 0 <= j < old(dst)@.len() ==> -bound <= #[trigger] buf_views(
                srcs@,
            )[k][j] <= bound,
    ensures
        r is Ok,
        final (dst).wf(),
        final (dst).num_parts() == old(dst).num_parts(),
        final (dst)@.len() == old(dst)@.len(),
        forall|idx: int|
            0 <= idx < final (dst)@.len() ==> final (dst)@[idx] == col_sum(buf_views(srcs@), idx),
{
    let ghost np = old(dst).num_parts();
    let ghost total = old(dst)@.len() as int;
    let ghost l = old(dst).spec_part_len();
    let num_parts = dst.num_partitions();
    let mut i: usize = 0;
    while i < num_parts
        invariant
            dst.wf(),
            dst.num_parts() == np,
            dst@.len() == total,
            np == num_parts,
            l == total / np,
            i <= np,
            srcs@.len() >= 1,
            forall|k: int|
                0 <= k < srcs@.len() ==> {
                    &&& (#[trigger] srcs@[k]).wf()
                    &&& srcs@[k].num_parts() == np
                    &&& srcs@[k]@.len() == total
                },
            0 <= bound,
            srcs@.len() * bound <= i64::MAX,
            forall|k: int, j: int|
                0 <= k < srcs@.len() && 0 <= j < total ==> -bound <= #[trigger] buf_views(
                    srcs@,
                )[k][j] <= bound,
            forall|p: int, j: int|
                0 <= p < i && 0 <= j < l ==> #[trigger] dst.spec_part(p)[j] == col_sum(
                    part_views(srcs@, p),
                    j,
                ),
        decreases num_parts - i,
    {
        proof {
            let pv = part_views(srcs@, i as int);
            let m = srcs@.len() as int;
            dst.lemma_part_in_range(i as int);
            assert forall|k: int, j: int|
                0 <= k < m && 0 <= j < l implies -bound <= #[trigger] pv[k][j] <= bound by {
                srcs@[k].lemma_part_in_range(i as int);
                assert(pv[k] == srcs@[k].spec_part(i as int));
                assert(pv[k][j] == srcs@[k]@[i as int * l + j]);
                assert(buf_views(srcs@)[k] == srcs@[k]@);
            }
            assert forall|k: int| 0 <= k < m implies (#[trigger] pv[k]).len() == l by {
                srcs@[k].lemma_part_in_range(i as int);
                assert(pv[k] == srcs@[k].spec_part(i as int));
            }
            assert forall|k: int, j: int|
                0 <= k <= m && 0 <= j < l implies i64::MIN <= #[trigger] col_sum_upto(pv, k, j)
                <= i64::MAX by {
                lemma_col_sum_upto_bound(pv, bound as int, l, k, j);
                assert(k * bound <= m * bound && -(m * bound) <= -(k * bound))
                    by (nonlinear_arith)
                    requires
                        k <= m,
                        0 <= bound,
                ;
            }
        }
        let r = reduce_partition(dst, srcs, i);
        i += 1;
    }
    proof {
        assert forall|idx: int|
            0 <= idx < dst@.len() implies dst@[idx] == col_sum(buf_views(srcs@), idx) by {
            crate::partitioned_vec::lemma_index_owner(total, np, idx);
            let owner = idx / l;
            dst.lemma_part_in_range(owner);
            vstd::arithmetic::div_mod::lemma_fundamental_div_mod(idx, l);
            let off = idx % l;
            assert(idx == l * owner + off);
            assert(dst.spec_part(owner)[off] == dst@[owner * l + off]);
            assert(owner * l + off == idx) by (nonlinear_arith)
                requires
                    idx == l * owner + off,
            ;
            assert(dst.spec_part(owner)[off] == col_sum(part_views(srcs@, owner), off));
            lemma_col_sum_part_global(srcs@, np, total, l, owner, srcs@.len() as int, off);
            assert(part_views(srcs@, owner).len() == buf_views(srcs@).len());
        }
    }
    Ok(())
}

proof fn lemma_col_sum_upto_prefix(a: Seq<Seq<i64>>, b: Seq<Seq<i64>>, k: int, j: int)
    requires
        0 <= k,
        k <= a.len(),
        k <= b.len(),
        forall|i: int| 0 <= i < k ==> a[i] == b[i],
    ensures
        col_sum_upto(a, k, j) == col_sum_upto(b, k, j),
    decreases k,
{
    if k > 0 {
        lemma_col_sum_upto_prefix(a, b, k - 1, j);
    }
}

proof fn lemma_col_sum_concat(a: Seq<Seq<i64>>, b: Seq<Seq<i64>>, j: int)
    ensures
        col_sum(a + b, j) == col_sum(a, j) + col_sum(b, j),
    decreases b.len(),
{
    if b.len() == 0 {
        assert(a + b =~= a);
    } else {
        lemma_col_sum_concat(a, b.drop_last(), j);
        assert(a + b.drop_last() =~= (a + b).take(a.len() + b.len() - 1));
        lemma_col_sum_upto_prefix(
            a + b.drop_last(),
            a + b,
            a.len() + b.len() - 1,
            j,
        );
        assert((a + b)[a.len() + b.len() - 1] == b.last());
        assert(col_sum(b, j) == col_sum_upto(b, b.len() - 1, j) + b.last()[j]);
        assert(col_sum_upto(b.drop_last(), b.len() - 1, j) == col_sum_upto(b, b.len() - 1, j)) by {
            lemma_col_sum_upto_prefix(b.drop_last(), b, b.len() - 1, j);
        }
    }
}

proof fn lemma_col_sum_front(s: Seq<Seq<i64>>, j: int)
    requires
        s.len() >= 1,
    ensures
        col_sum(s, j) == s[0][j] + col_sum(s.drop_first(), j),
{
    assert(s =~= seq![s[0]] + s.drop_first());
    lemma_col_sum_concat(seq![s[0]], s.drop_first(), j);
    assert(col_sum(seq![s[0]], j) == col_sum_upto(seq![s[0]], 0, j) + s[0][j]);
}

/// Hierarchical aggregation composes: when each child aggregates its
/// own group of leaves and the root aggregates the children's results,
/// every element of the root's output is the sum over all leaves — one
/// tier of aggregation loses and duplicates nothing.
pub proof fn lemma_hierarchical_col_sum(
    groups: Seq<Seq<Seq<i64>>>,
    childs: Seq<Seq<i64>>,
    j: int,
)
    requires
        childs.len() == groups.len(),
        forall|g: int| 0 <= g < groups.len() ==> (#[trigger] childs[g])[j] == col_sum(groups[g], j),
    ensures
        col_sum(childs, j) == col_sum(groups.flatten(), j),
    decreases groups.len(),
{
    if groups.len() == 0 {
        assert(groups.flatten() =~= Seq::<Seq<i64>>::empty());
    } else {
        lemma_hierarchical_col_sum(groups.drop_first(), childs.drop_first(), j);
        assert(groups.flatten() == groups.first() + groups.drop_first().flatten());
        lemma_col_sum_concat(groups.first(), groups.drop_first().flatten(), j);
        lemma_col_sum_front(childs, j);
        assert(childs[0][j] == col_sum(groups[0], j));
    }
}

} // verus!
