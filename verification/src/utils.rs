//! Small helpers shared by the pipeline builders: matrix transposition
//! for regrouping per-connection resources into per-task lists, request
//! slot allocation, and size rounding for page-aligned buffers.

use vstd::prelude::*;

verus! {

/// Turns a non-empty rectangular matrix `v` (a vector of equally long
/// rows) into its transpose: entry `(i, j)` of the result is entry
/// `(j, i)` of the input.
pub fn transpose<T>(v: Vec<Vec<T>>) -> (r: Vec<Vec<T>>)
    requires
        v@.len() > 0,
        forall|j: int| 0 <= j < v@.len() ==> (#[trigger] v@[j])@.len() == v@[0]@.len(),
    ensures
        r@.len() == v@[0]@.len(),
        forall|i: int| 0 <= i < r@.len() ==> (#[trigger] r@[i])@.len() == v@.len(),
        forall|i: int, j: int|
            0 <= i < r@.len() && 0 <= j < v@.len() ==> r@[i]@[j] == v@[j]@[i as int],
{
    let ghost orig = v@;
    let mut v = v;
    let len = v[0].len();
    let mut rows: Vec<Vec<T>> = Vec::new();
    let mut col: usize = 0;
    while col < len
        invariant
            orig.len() > 0,
            forall|j: int| 0 <= j < orig.len() ==> (#[trigger] orig[j])@.len() == len,
            v@.len() == orig.len(),
            col <= len,
            forall|j: int| 0 <= j < v@.len() ==> (#[trigger] v@[j])@ == orig[j]@.skip(col as int),
            rows@.len() == col,
            forall|i: int| 0 <= i < col ==> (#[trigger] rows@[i])@.len() == orig.len(),
            forall|i: int, j: int|
                0 <= i < col && 0 <= j < orig.len() ==> rows@[i]@[j] == orig[j]@[i],
        decreases len - col,
    {
        let mut row: Vec<T> = Vec::new();
        let mut j: usize = 0;
        while j < v.len()
            invariant
                orig.len() > 0,
                col < len,
                forall|jj: int| 0 <= jj < orig.len() ==> (#[trigger] orig[jj])@.len() == len,
                v@.len() == orig.len(),
                j <= v@.len(),
                forall|jj: int|
                    0 <= jj < j ==> (#[trigger] v@[jj])@ == orig[jj]@.skip(col + 1),
                forall|jj: int|
                    j <= jj < v@.len() ==> (#[trigger] v@[jj])@ == orig[jj]@.skip(col as int),
                row@.len() == j,
                forall|jj: int| 0 <= jj < j ==> row@[jj] == orig[jj]@[col as int],
            decreases v@.len() - j,
        {
            let ghost v_j_before = v@[j as int]@;
            let cell = v[j].remove(0);
            proof {
                assert(v_j_before == orig[j as int]@.skip(col as int));
                assert(v_j_before[0] == orig[j as int]@[col as int]);
                assert(v_j_before.remove(0) =~= orig[j as int]@.skip(col + 1));
            }
            row.push(cell);
            j += 1;
        }
        rows.push(row);
        col += 1;
    }
    rows
}

/// A vector of `n` empty request slots.
pub fn vec_of_none<T>(n: usize) -> (r: Vec<Option<T>>)
    ensures
        r@.len() == n,
        forall|i: int| 0 <= i < n ==> (#[trigger] r@[i]) is None,
{
    let mut r: Vec<Option<T>> = Vec::new();
    let mut k: usize = 0;
    while k < n
        invariant
            k <= n,
            r@.len() == k,
            forall|i: int| 0 <= i < k ==> (#[trigger] r@[i]) is None,
        decreases n - k,
    {
        r.push(None);
        k += 1;
    }
    r
}

/// Rounds `size` up to the next multiple of `align`. Buffers handed to
/// the transport are allocated at page granularity; the caller supplies
/// the page size as `align`.
pub fn round_up(size: usize, align: usize) -> (r: usize)
    requires
        align >= 1,
        size + align - 1 <= usize::MAX,
    ensures
        r >= size,
        r as int % align as int == 0,
        r < size + align,
{
    let bumped = size + (align - 1);
    let q = bumped / align;
    proof {
        let b = bumped as int;
        let a = align as int;
        vstd::arithmetic::div_mod::lemma_fundamental_div_mod(b, a);
        vstd::arithmetic::div_mod::lemma_mod_bound(b, a);
        vstd::arithmetic::div_mod::lemma_mod_multiples_basic(b / a, a);
        assert(a * (b / a) == (b / a) * a) by (nonlinear_arith);
        assert((b / a) * a == b - b % a);
    }
    let r = q * align;
    r
}

/// A vector of `n` zeroed counters.
pub fn vec_of_zero(n: usize) -> (r: Vec<usize>)
    ensures
        r@.len() == n,
        forall|i: int| 0 <= i < n ==> (#[trigger] r@[i]) == 0,
{
    let mut r: Vec<usize> = Vec::new();
    let mut k: usize = 0;
    while k < n
        invariant
            k <= n,
            r@.len() == k,
            forall|i: int| 0 <= i < k ==> (#[trigger] r@[i]) == 0,
        decreases n - k,
    {
        r.push(0);
        k += 1;
    }
    r
}

/// A vector of `n` cleared flags.
pub fn vec_of_false(n: usize) -> (r: Vec<bool>)
    ensures
        r@.len() == n,
        forall|i: int| 0 <= i < n ==> !(#[trigger] r@[i]),
{
    let mut r: Vec<bool> = Vec::new();
    let mut k: usize = 0;
    while k < n
        invariant
            k <= n,
            r@.len() == k,
            forall|i: int| 0 <= i < k ==> !(#[trigger] r@[i]),
        decreases n - k,
    {
        r.push(false);
        k += 1;
    }
    r
}

} // verus!
