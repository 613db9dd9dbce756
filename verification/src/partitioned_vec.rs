//! The partitioned tensor buffer.
//!
//! One contiguous array of `size` elements is divided into
//! `num_partition` equal, disjoint partitions that together cover the
//! whole array. Workers of different pools mutate different partitions
//! concurrently; because the index ranges are disjoint (proved here),
//! per-partition locks never contend with one another and a writer in
//! one partition can never touch another partition's elements. The
//! harness wraps each partition in its own mutex and allocates the
//! backing storage page-aligned for transport registration; this module
//! holds the index arithmetic and the framed element accesses that make
//! that sharing sound.

use vstd::prelude::*;

verus! {

/// Why a buffer could not be constructed.
#[derive(Debug)]
pub enum Error {
    /// The element count is not divisible by the partition count.
    InvalidPartitionSize,
}

/// A contiguous array of `T` split into equal disjoint partitions.
pub struct PartitionedVec<T> {
    data: Vec<T>,
    num_partition: usize,
}

impl<T> View for PartitionedVec<T> {
    type V = Seq<T>;

    closed spec fn view(&self) -> Seq<T> {
        self.data@
    }
}

impl<T: Copy> PartitionedVec<T> {
    /// How many partitions the buffer was created with.
    pub closed spec fn num_parts(&self) -> int {
        self.num_partition as int
    }

    /// The buffer is well formed: at least one partition, and the
    /// element count divides evenly among the partitions.
    pub open spec fn wf(&self) -> bool {
        &&& 1 <= self.num_parts()
        &&& self@.len() as int % self.num_parts() == 0
    }

    /// The length of each partition.
    pub open spec fn spec_part_len(&self) -> int {
        self@.len() as int / self.num_parts()
    }

    /// The first index of partition `i`.
    pub open spec fn part_start(&self, i: int) -> int {
        i * self.spec_part_len()
    }

    /// The contents of partition `i`.
    pub open spec fn spec_part(&self, i: int) -> Seq<T>
        recommends
            self.wf(),
            0 <= i < self.num_parts(),
    {
        self@.subrange(self.part_start(i), self.part_start(i) + self.spec_part_len())
    }

    /// Builds a buffer of `size` copies of `value` in `num_partition`
    /// partitions, or reports that `size` does not divide evenly.
    /// `alignment` is the alignment the backing storage is requested
    /// at; the logical contents are independent of it.
    #[allow(unused_variables)]
    pub fn from_value(alignment: usize, size: usize, num_partition: usize, value: T) -> (r: Result<
        Self,
        Error,
    >)
        requires
            num_partition >= 1,
        ensures
            match r {
                Ok(v) => {
                    &&& size as int % num_partition as int == 0
                    &&& v.wf()
                    &&& v.num_parts() == num_partition
                    &&& v@ == Seq::new(size as nat, |i: int| value)
                },
                Err(_) => size as int % num_partition as int != 0,
            },
    {
        if size % num_partition != 0 {
            return Err(Error::InvalidPartitionSize);
        }
        let mut data: Vec<T> = Vec::new();
        let mut k: usize = 0;
        while k < size
            invariant
                k <= size,
                data@.len() == k,
                forall|i: int| 0 <= i < k ==> data@[i] == value,
            decreases size - k,
        {
            data.push(value);
            k += 1;
        }
        proof {
            assert(data@ =~= Seq::new(size as nat, |i: int| value));
        }
        Ok(PartitionedVec { data, num_partition })
    }

    /// Builds a zero-initialized buffer: `size` copies of the element
    /// type's default value in `num_partition` partitions, or reports
    /// that `size` does not divide evenly. `alignment` is the alignment
    /// the backing storage is requested at; the logical contents are
    /// independent of it.
    pub fn new(alignment: usize, size: usize, num_partition: usize) -> (r: Result<Self, Error>)
        where
            T: Default,

        requires
            num_partition >= 1,
        ensures
            match r {
                Ok(v) => {
                    &&& size as int % num_partition as int == 0
                    &&& v.wf()
                    &&& v.num_parts() == num_partition
                    &&& v@.len() == size
                    &&& forall|i: int, j: int| 0 <= i < size && 0 <= j < size ==> v@[i] == v@[j]
                },
                Err(_) => size as int % num_partition as int != 0,
            },
    {
        let d = T::default();
        Self::from_value(alignment, size, num_partition, d)
    }

    /// The buffer's length in elements.
    pub fn len(&self) -> (r: usize)
        ensures
            r == self@.len(),
    {
        self.data.len()
    }

    /// How many partitions the buffer has.
    pub fn num_partitions(&self) -> (r: usize)
        ensures
            r == self.num_parts(),
    {
        self.num_partition
    }

    /// The length of each partition.
    pub fn part_len(&self) -> (r: usize)
        requires
            self.wf(),
        ensures
            r == self.spec_part_len(),
    {
        self.data.len() / self.num_partition
    }

    /// A view of the whole buffer, as the whole-buffer lock of the
    /// harness exposes it for initialization and inspection.
    pub fn lock(&self) -> (r: &Vec<T>)
        ensures
            r@ == self@,
    {
        &self.data
    }

    /// A copy of partition `i`.
    pub fn part(&self, i: usize) -> (r: Vec<T>)
        requires
            self.wf(),
            i < self.num_parts(),
        ensures
            r@ == self.spec_part(i as int),
            r@.len() == self.spec_part_len(),
    {
        proof {
            self.lemma_part_in_range(i as int);
        }
        let part_len = self.data.len() / self.num_partition;
        let start = i * part_len;
        let mut r: Vec<T> = Vec::new();
        let mut k: usize = 0;
        while k < part_len
            invariant
                k <= part_len,
                part_len == self.spec_part_len(),
                start == self.part_start(i as int),
                start + part_len <= self@.len(),
                self@.len() <= usize::MAX,
                r@.len() == k,
                forall|j: int| 0 <= j < k ==> r@[j] == self@[start + j],
            decreases part_len - k,
        {
            r.push(self.data[start + k]);
            k += 1;
        }
        proof {
            assert(r@ =~= self.spec_part(i as int));
        }
        r
    }

    /// Reads element `off` of partition `i`.
    pub fn read_elem(&self, i: usize, off: usize) -> (r: T)
        requires
            self.wf(),
            i < self.num_parts(),
            off < self.spec_part_len(),
        ensures
            r == self@[self.part_start(i as int) + off],
    {
        proof {
            self.lemma_part_in_range(i as int);
        }
        let part_len = self.data.len() / self.num_partition;
        self.data[i * part_len + off]
    }

    /// Writes element `off` of partition `i`, and nothing else: every
    /// other index — in particular every index of every other
    /// partition — keeps its value.
    pub fn write_elem(&mut self, i: usize, off: usize, v: T)
        requires
            old(self).wf(),
            i < old(self).num_parts(),
            off < old(self).spec_part_len(),
        ensures
            final (self).wf(),
            final (self).num_parts() == old(self).num_parts(),
            final (self)@ == old(self)@.update(old(self).part_start(i as int) + off, v),
            final (self).spec_part(i as int) == old(self).spec_part(i as int).update(
                off as int,
                v,
            ),
            forall|p: int|
                0 <= p < old(self).num_parts() && p != i ==> final (self).spec_part(p) == old(
                    self,
                ).spec_part(p),
    {
        proof {
            self.lemma_part_in_range(i as int);
        }
        let part_len = self.data.len() / self.num_partition;
        self.data.set(i * part_len + off, v);
        proof {
            let l = self.spec_part_len();
            let idx = i as int * l + off;
            assert(self.spec_part(i as int) =~= old(self).spec_part(i as int).update(
                off as int,
                v,
            ));
            assert forall|p: int|
                0 <= p < self.num_parts() && p != i implies self.spec_part(p) == old(
                self,
            ).spec_part(p) by {
                let ll = self.spec_part_len();
                self.lemma_part_in_range(p);
                lemma_distinct_parts_disjoint(self@.len() as int, self.num_parts(), i as int, p);
                assert((p + 1) * ll == p * ll + ll) by (nonlinear_arith);
                assert((i as int + 1) * ll == i as int * ll + ll) by (nonlinear_arith);
                assert(self.spec_part(p) =~= old(self).spec_part(p));
            }
        }
    }

    /// Replaces partition `i` with `vals`, and nothing else.
    pub fn set_part(&mut self, i: usize, vals: &Vec<T>)
        requires
            old(self).wf(),
            i < old(self).num_parts(),
            vals@.len() == old(self).spec_part_len(),
        ensures
            final (self).wf(),
            final (self).num_parts() == old(self).num_parts(),
            final (self)@.len() == old(self)@.len(),
            final (self).spec_part(i as int) == vals@,
            forall|p: int|
                0 <= p < old(self).num_parts() && p != i ==> final (self).spec_part(p) == old(
                    self,
                ).spec_part(p),
    {
        proof {
            self.lemma_part_in_range(i as int);
        }
        let ghost orig = self@;
        let ghost nparts = self.num_parts();
        let part_len = self.data.len() / self.num_partition;
        let start = i * part_len;
        let mut k: usize = 0;
        while k < part_len
            invariant
                k <= part_len,
                self.num_parts() == nparts,
                self@.len() == orig.len(),
                i < nparts,
                vals@.len() == part_len,
                start == i * part_len,
                start + part_len <= self@.len(),
                self@.len() <= usize::MAX,
                part_len == self@.len() as int / nparts,
                orig.len() as int % nparts == 0,
                1 <= nparts,
                forall|j: int| 0 <= j < k ==> self@[start + j] == vals@[j],
                forall|j: int|
                    0 <= j < self@.len() && !(start <= j < start + k) ==> self@[j] == orig[j],
            decreases part_len - k,
        {
            self.data.set(start + k, vals[k]);
            k += 1;
        }
        proof {
            assert(self.spec_part(i as int) =~= vals@);
            assert forall|p: int|
                0 <= p < self.num_parts() && p != i implies self.spec_part(p) == old(
                self,
            ).spec_part(p) by {
                let ll = self.spec_part_len();
                self.lemma_part_in_range(p);
                lemma_distinct_parts_disjoint(self@.len() as int, self.num_parts(), i as int, p);
                assert((p + 1) * ll == p * ll + ll) by (nonlinear_arith);
                assert((i as int + 1) * ll == i as int * ll + ll) by (nonlinear_arith);
                assert(self.spec_part(p) =~= old(self).spec_part(p));
            }
        }
    }

    /// Partition `i` sits inside the buffer, and the partitions tile
    /// it: `num_parts · part_len == len`.
    pub proof fn lemma_part_in_range(&self, i: int)
        requires
            self.wf(),
            0 <= i < self.num_parts(),
        ensures
            self.num_parts() * self.spec_part_len() == self@.len(),
            0 <= self.part_start(i),
            self.part_start(i) + self.spec_part_len() <= self@.len(),
            self.part_start(i) == i * self.spec_part_len(),
    {
        let n = self@.len() as int;
        let k = self.num_parts();
        let l = self.spec_part_len();
        vstd::arithmetic::div_mod::lemma_fundamental_div_mod(n, k);
        assert(n == k * l);
        assert(0 <= i * l) by (nonlinear_arith)
            requires
                0 <= i,
                0 <= l,
        ;
        assert(i * l + l <= k * l) by (nonlinear_arith)
            requires
                i < k,
                0 <= l,
        ;
    }
}

/// Distinct partitions occupy disjoint index ranges: the partition of
/// one worker lies entirely before or entirely after the partition of
/// any other, so no index has two writers.
pub proof fn lemma_distinct_parts_disjoint(len: int, num_parts: int, i: int, p: int)
    requires
        0 <= len,
        1 <= num_parts,
        len % num_parts == 0,
        0 <= i < num_parts,
        0 <= p < num_parts,
        i != p,
    ensures
        ({
            let l = len / num_parts;
            (i + 1) * l <= p * l || (p + 1) * l <= i * l
        }),
{
    let l = len / num_parts;
    vstd::arithmetic::div_mod::lemma_div_is_ordered(0, len, num_parts);
    if i < p {
        assert((i + 1) * l <= p * l) by (nonlinear_arith)
            requires
                i + 1 <= p,
                0 <= l,
        ;
    } else {
        assert((p + 1) * l <= i * l) by (nonlinear_arith)
            requires
                p + 1 <= i,
                0 <= l,
        ;
    }
}

/// Each index of the buffer belongs to exactly one partition: the one
/// whose number is the index divided by the partition length.
pub proof fn lemma_index_owner(len: int, num_parts: int, idx: int)
    requires
        1 <= num_parts,
        0 < len,
        len % num_parts == 0,
        0 <= idx < len,
    ensures
        ({
            let l = len / num_parts;
            let owner = idx / l;
            &&& 0 < l
            &&& 0 <= owner < num_parts
            &&& owner * l <= idx < (owner + 1) * l
            &&& forall|q: int|
                0 <= q < num_parts && q != owner ==> !((#[trigger] (q * l)) <= idx < (q + 1) * l)
        }),
{
    let l = len / num_parts;
    vstd::arithmetic::div_mod::lemma_fundamental_div_mod(len, num_parts);
    assert(len == num_parts * l);
    assert(0 < l) by (nonlinear_arith)
        requires
            0 < len,
            len == num_parts * l,
            1 <= num_parts,
    ;
    let owner = idx / l;
    vstd::arithmetic::div_mod::lemma_fundamental_div_mod(idx, l);
    vstd::arithmetic::div_mod::lemma_mod_bound(idx, l);
    assert(owner * l <= idx < (owner + 1) * l) by (nonlinear_arith)
        requires
            idx == l * owner + idx % l,
            0 <= idx % l < l,
    ;
    assert(0 <= owner < num_parts) by (nonlinear_arith)
        requires
            owner * l <= idx < (owner + 1) * l,
            0 <= idx < len,
            len == num_parts * l,
            0 < l,
    ;
    assert forall|q: int|
        0 <= q < num_parts && q != owner implies !((#[trigger] (q * l)) <= idx < (q + 1) * l) by {
        lemma_distinct_parts_disjoint(len, num_parts, owner, q);
    }
}

} // verus!
