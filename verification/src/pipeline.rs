//! The aggregator pipeline handshake.
//!
//! Each job carries two readiness words: `recv_ready`, where receive
//! workers publish that their peers' tensors are deposited, and
//! `send_ready`, where send workers publish that the reduced tensor
//! has been transmitted and the output buffer is free again. The
//! reducer waits for both words to be full, reduces, and clears them;
//! the optional upstream stage interposes between reducer and senders
//! with a word of its own. This module holds the transitions of that
//! handshake, its deadlock freedom, a deterministic round simulation
//! that counts every worker's passes, and the scheduling decisions of
//! the client driver.

use vstd::prelude::*;

verus! {

use crate::mask::bit_is_clear;
use crate::mask::full_mask;
use crate::mask::get_bit;
use crate::mask::is_full;
use crate::mask::lemma_not_full_has_clear_bit;
use crate::mask::publish;
use crate::mask::spec_full_mask;

/// The two readiness words of one job.
pub struct JobMasks {
    /// Bit `i` set: send worker `i` has transmitted its share and the
    /// output buffer is free for the reducer to refill.
    pub send_ready: u64,
    /// Bit `i` set: receive worker `i` has deposited its peers' share
    /// and it is ready for reduction.
    pub recv_ready: u64,
}

impl JobMasks {
    /// Both words stay within their pools' widths.
    pub open spec fn wf(&self, recv_threads: u64, send_threads: u64) -> bool {
        &&& 1 <= recv_threads <= 63
        &&& 1 <= send_threads <= 63
        &&& self.recv_ready <= spec_full_mask(recv_threads)
        &&& self.send_ready <= spec_full_mask(send_threads)
    }

    /// A job starts with every send buffer free and nothing received.
    pub fn new(recv_threads: u64, send_threads: u64) -> (r: JobMasks)
        requires
            1 <= recv_threads <= 63,
            1 <= send_threads <= 63,
        ensures
            r.wf(recv_threads, send_threads),
            r.send_ready == spec_full_mask(send_threads),
            r.recv_ready == 0,
    {
        JobMasks { send_ready: full_mask(send_threads), recv_ready: 0 }
    }

    /// Whether receive worker `i` may refill its share: its deposit
    /// from the previous round has been consumed.
    pub fn recv_slot_free(&self, i: u64) -> (r: bool)
        requires
            i <= 63,
        ensures
            r == !get_bit(self.recv_ready, i),
    {
        bit_is_clear(self.recv_ready, i)
    }

    /// Receive worker `i` publishes its deposit: its bit is set, no
    /// other bit of either word moves.
    pub fn recv_publish(&mut self, i: u64, recv_threads: u64, send_threads: u64)
        requires
            old(self).wf(recv_threads, send_threads),
            i < recv_threads,
            !get_bit(old(self).recv_ready, i),
        ensures
            final (self).wf(recv_threads, send_threads),
            final (self).recv_ready == old(self).recv_ready | (1u64 << i),
            final (self).recv_ready == old(self).recv_ready + (1u64 << i),
            get_bit(final (self).recv_ready, i),
            forall|j: u64|
                j <= 63 && j != i ==> get_bit(final (self).recv_ready, j) == get_bit(
                    old(self).recv_ready,
                    j,
                ),
            final (self).send_ready == old(self).send_ready,
    {
        let m = publish(self.recv_ready, i);
        proof {
            let f = spec_full_mask(recv_threads);
            let cur = self.recv_ready;
            assert(m <= f) by (bit_vector)
                requires
                    recv_threads <= 63,
                    i < recv_threads,
                    f == ((1u64 << recv_threads) - 1) as u64,
                    cur <= f,
                    m == cur | (1u64 << i),
            ;
        }
        self.recv_ready = m;
    }

    /// Whether send worker `i` may transmit: the reducer has refilled
    /// the output buffer and cleared the word, so worker `i`'s bit is
    /// clear again.
    pub fn send_slot_ready(&self, i: u64) -> (r: bool)
        requires
            i <= 63,
        ensures
            r == !get_bit(self.send_ready, i),
    {
        bit_is_clear(self.send_ready, i)
    }

    /// Send worker `i` publishes that its share is transmitted: its
    /// bit is set, no other bit of either word moves.
    pub fn send_publish(&mut self, i: u64, recv_threads: u64, send_threads: u64)
        requires
            old(self).wf(recv_threads, send_threads),
            i < send_threads,
            !get_bit(old(self).send_ready, i),
        ensures
            final (self).wf(recv_threads, send_threads),
            final (self).send_ready == old(self).send_ready | (1u64 << i),
            final (self).send_ready == old(self).send_ready + (1u64 << i),
            get_bit(final (self).send_ready, i),
            forall|j: u64|
                j <= 63 && j != i ==> get_bit(final (self).send_ready, j) == get_bit(
                    old(self).send_ready,
                    j,
                ),
            final (self).recv_ready == old(self).recv_ready,
    {
        let m = publish(self.send_ready, i);
        proof {
            let f = spec_full_mask(send_threads);
            let cur = self.send_ready;
            assert(m <= f) by (bit_vector)
                requires
                    send_threads <= 63,
                    i < send_threads,
                    f == ((1u64 << send_threads) - 1) as u64,
                    cur <= f,
                    m == cur | (1u64 << i),
            ;
        }
        self.send_ready = m;
    }

    /// Whether the reducer may take the job: every receive worker has
    /// deposited and every send worker has freed the output buffer.
    pub fn reduce_can_fire(&self, recv_threads: u64, send_threads: u64) -> (r: bool)
        requires
            recv_threads <= 63,
            send_threads <= 63,
        ensures
            r == (self.recv_ready == spec_full_mask(recv_threads) && self.send_ready
                == spec_full_mask(send_threads)),
    {
        is_full(self.recv_ready, recv_threads) && is_full(self.send_ready, send_threads)
    }

    /// The reducer takes the batch: both words are cleared, releasing
    /// the receive workers to refill and the send workers to transmit.
    pub fn reduce_fire(&mut self, recv_threads: u64, send_threads: u64)
        requires
            old(self).wf(recv_threads, send_threads),
            old(self).recv_ready == spec_full_mask(recv_threads),
            old(self).send_ready == spec_full_mask(send_threads),
        ensures
            final (self).wf(recv_threads, send_threads),
            final (self).recv_ready == 0,
            final (self).send_ready == 0,
    {
        self.recv_ready = 0;
        self.send_ready = 0;
    }

    /// The handshake never deadlocks: in every well-formed state,
    /// either the reducer can fire, or some receive worker can
    /// deposit, or some send worker can transmit.
    pub proof fn lemma_no_deadlock(&self, recv_threads: u64, send_threads: u64)
        requires
            self.wf(recv_threads, send_threads),
        ensures
            (self.recv_ready == spec_full_mask(recv_threads) && self.send_ready
                == spec_full_mask(send_threads)) || (exists|i: u64|
                i < recv_threads && !get_bit(self.recv_ready, i)) || (exists|i: u64|
                i < send_threads && !get_bit(self.send_ready, i)),
    {
        if self.recv_ready != spec_full_mask(recv_threads) {
            lemma_not_full_has_clear_bit(self.recv_ready, recv_threads);
        } else if self.send_ready != spec_full_mask(send_threads) {
            lemma_not_full_has_clear_bit(self.send_ready, send_threads);
        }
    }
}

/// Runs `rounds` full pipeline rounds of one job under the canonical
/// schedule — every receive worker deposits, the reducer takes the
/// batch, every send worker transmits — starting from the initial
/// masks. The job returns to its initial masks, and every worker's
/// pass counter reaches exactly `rounds`: with all peers connected the
/// job completes any number of passes, each worker setting and
/// clearing its bit exactly once per pass, with no deadlock.
pub fn run_job_rounds(recv_threads: u64, send_threads: u64, rounds: usize) -> (r: (
    JobMasks,
    Vec<usize>,
    Vec<usize>,
    usize,
))
    requires
        1 <= recv_threads <= 63,
        1 <= send_threads <= 63,
    ensures
        r.0.send_ready == spec_full_mask(send_threads),
        r.0.recv_ready == 0,
        r.1@.len() == recv_threads,
        forall|i: int| 0 <= i < recv_threads ==> r.1@[i] == rounds,
        r.2@.len() == send_threads,
        forall|i: int| 0 <= i < send_threads ==> r.2@[i] == rounds,
        r.3 == rounds,
{
    let mut masks = JobMasks::new(recv_threads, send_threads);
    let mut recv_passes: Vec<usize> = crate::utils::vec_of_zero(recv_threads as usize);
    let mut send_passes: Vec<usize> = crate::utils::vec_of_zero(send_threads as usize);
    let mut reduce_passes: usize = 0;
    let mut round: usize = 0;
    while round < rounds
        invariant
            1 <= recv_threads <= 63,
            1 <= send_threads <= 63,
            round <= rounds,
            masks.wf(recv_threads, send_threads),
            masks.send_ready == spec_full_mask(send_threads),
            masks.recv_ready == 0,
            recv_passes@.len() == recv_threads,
            forall|i: int| 0 <= i < recv_threads ==> recv_passes@[i] == round,
            send_passes@.len() == send_threads,
            forall|i: int| 0 <= i < send_threads ==> send_passes@[i] == round,
            reduce_passes == round,
        decreases rounds - round,
    {
        proof {
            assert(((1u64 << 0u64) - 1) as u64 == 0u64) by (bit_vector);
            assert(spec_full_mask(0) == 0);
        }
        // every receive worker deposits its share
        let mut i: u64 = 0;
        while i < recv_threads
            invariant
                1 <= recv_threads <= 63,
                1 <= send_threads <= 63,
                round < rounds,
                i <= recv_threads,
                masks.wf(recv_threads, send_threads),
                masks.send_ready == spec_full_mask(send_threads),
                masks.recv_ready == spec_full_mask(i),
                recv_passes@.len() == recv_threads,
                forall|j: int| 0 <= j < i ==> recv_passes@[j] == round + 1,
                forall|j: int| i <= j < recv_threads ==> recv_passes@[j] == round,
                send_passes@.len() == send_threads,
                forall|j: int| 0 <= j < send_threads ==> send_passes@[j] == round,
            decreases recv_threads - i,
        {
            proof {
                let cur = masks.recv_ready;
                assert(cur & (1u64 << i) == 0 && (cur | (1u64 << i)) == ((1u64 << (i + 1))
                    - 1) as u64) by (bit_vector)
                    requires
                        i < 63,
                        cur == ((1u64 << i) - 1) as u64,
                ;
            }
            masks.recv_publish(i, recv_threads, send_threads);
            let n = recv_passes[i as usize] + 1;
            recv_passes.set(i as usize, n);
            i += 1;
        }
        // the reducer takes the batch
        masks.reduce_fire(recv_threads, send_threads);
        reduce_passes += 1;
        proof {
            assert(((1u64 << 0u64) - 1) as u64 == 0u64) by (bit_vector);
            assert(spec_full_mask(0) == 0);
        }
        // every send worker transmits its share
        let mut i: u64 = 0;
        while i < send_threads
            invariant
                1 <= recv_threads <= 63,
                1 <= send_threads <= 63,
                round < rounds,
                i <= send_threads,
                masks.wf(recv_threads, send_threads),
                masks.recv_ready == 0,
                masks.send_ready == spec_full_mask(i),
                recv_passes@.len() == recv_threads,
                forall|j: int| 0 <= j < recv_threads ==> recv_passes@[j] == round + 1,
                send_passes@.len() == send_threads,
                forall|j: int| 0 <= j < i ==> send_passes@[j] == round + 1,
                forall|j: int| i <= j < send_threads ==> send_passes@[j] == round,
            decreases send_threads - i,
        {
            proof {
                let cur = masks.send_ready;
                assert(cur & (1u64 << i) == 0 && (cur | (1u64 << i)) == ((1u64 << (i + 1))
                    - 1) as u64) by (bit_vector)
                    requires
                        i < 63,
                        cur == ((1u64 << i) - 1) as u64,
                ;
            }
            masks.send_publish(i, recv_threads, send_threads);
            let n = send_passes[i as usize] + 1;
            send_passes.set(i as usize, n);
            i += 1;
        }
        round += 1;
    }
    (masks, recv_passes, send_passes, reduce_passes)
}

/// The upstream stage's handoff. Once every reducer word reads zero —
/// the reducers have produced the local sums — and the downstream word
/// reads all-set — the senders are done with the previous batch — the
/// locally reduced buffer has been exchanged with the upstream
/// aggregator for the global sum. The reducer words are set all-set so
/// reduction may proceed with the next batch, and the downstream word
/// is cleared so the senders distribute the global sum to the
/// children.
pub fn upstream_fire(reduce_words: &mut Vec<u64>, down_word: &mut u64, send_threads: u64)
    requires
        1 <= send_threads <= 63,
        forall|i: int| 0 <= i < old(reduce_words)@.len() ==> old(reduce_words)@[i] == 0,
        *old(down_word) == spec_full_mask(send_threads),
    ensures
        final (reduce_words)@.len() == old(reduce_words)@.len(),
        forall|i: int|
            0 <= i < final (reduce_words)@.len() ==> final (reduce_words)@[i] == spec_full_mask(
                send_threads,
            ),
        *final (down_word) == 0,
{
    let all_set = full_mask(send_threads);
    let mut i: usize = 0;
    while i < reduce_words.len()
        invariant
            i <= reduce_words@.len(),
            reduce_words@.len() == old(reduce_words)@.len(),
            all_set == spec_full_mask(send_threads),
            forall|j: int| 0 <= j < i ==> reduce_words@[j] == all_set,
            forall|j: int| i <= j < reduce_words@.len() ==> reduce_words@[j] == 0,
        decreases reduce_words@.len() - i,
    {
        reduce_words.set(i, all_set);
        i += 1;
    }
    *down_word = 0;
}

/// How many request slots of the client driver hold an outstanding
/// batch.
pub open spec fn count_true(s: Seq<bool>) -> int
    decreases s.len(),
{
    if s.len() == 0 {
        0
    } else {
        count_true(s.drop_last()) + if s.last() {
            1int
        } else {
            0int
        }
    }
}

proof fn lemma_count_true_bounds(s: Seq<bool>)
    ensures
        0 <= count_true(s) <= s.len(),
    decreases s.len(),
{
    if s.len() > 0 {
        lemma_count_true_bounds(s.drop_last());
    }
}

proof fn lemma_count_true_zero(s: Seq<bool>)
    requires
        count_true(s) == 0,
    ensures
        forall|i: int| 0 <= i < s.len() ==> !s[i],
    decreases s.len(),
{
    if s.len() > 0 {
        lemma_count_true_bounds(s.drop_last());
        lemma_count_true_zero(s.drop_last());
        assert forall|i: int| 0 <= i < s.len() implies !s[i] by {
            if i < s.len() - 1 {
                assert(s.drop_last()[i] == s[i]);
            }
        }
    }
}

proof fn lemma_count_true_update(s: Seq<bool>, i: int, v: bool)
    requires
        0 <= i < s.len(),
    ensures
        count_true(s.update(i, v)) == count_true(s) + (if v {
            1int
        } else {
            0int
        }) - (if s[i] {
            1int
        } else {
            0int
        }),
    decreases s.len(),
{
    let t = s.update(i, v);
    if i == s.len() - 1 {
        assert(t.drop_last() =~= s.drop_last());
    } else {
        assert(t.drop_last() =~= s.drop_last().update(i, v));
        lemma_count_true_update(s.drop_last(), i, v);
    }
}

/// The client driver's request scheduling: `nreq` request slots, each
/// holding at most one outstanding symmetric send+receive batch, until
/// `try_count` batches have been issued and have completed.
pub struct ClientDriver {
    /// How many request slots pipeline batches.
    pub nreq: usize,
    /// How many batches to run in all.
    pub try_count: usize,
    /// Batches issued so far.
    pub reqed: usize,
    /// Batches completed so far.
    pub finished: usize,
    /// Slot `i` holds an outstanding batch.
    pub slots: Vec<bool>,
}

impl ClientDriver {
    /// Counters and slots agree: what was issued either completed or
    /// sits in exactly one slot.
    pub open spec fn wf(&self) -> bool {
        &&& self.slots@.len() == self.nreq
        &&& self.finished + count_true(self.slots@) == self.reqed
        &&& self.reqed <= self.try_count
        &&& self.finished <= self.reqed
    }

    /// All batches have completed.
    pub open spec fn done(&self) -> bool {
        self.finished == self.try_count
    }

    /// A fresh driver: nothing issued, all slots empty.
    pub fn new(nreq: usize, try_count: usize) -> (r: ClientDriver)
        ensures
            r.wf(),
            r.nreq == nreq,
            r.try_count == try_count,
            r.reqed == 0,
            r.finished == 0,
    {
        let slots = crate::utils::vec_of_false(nreq);
        proof {
            lemma_count_all_false(slots@);
        }
        ClientDriver { nreq, try_count, reqed: 0, finished: 0, slots }
    }

    /// Issues a batch into slot `i` if the slot is empty and batches
    /// remain to issue; reports whether it did.
    pub fn try_issue(&mut self, i: usize) -> (issued: bool)
        requires
            old(self).wf(),
            i < old(self).nreq,
        ensures
            final (self).wf(),
            final (self).nreq == old(self).nreq,
            final (self).try_count == old(self).try_count,
            issued == (!old(self).slots@[i as int] && old(self).reqed < old(self).try_count),
            issued ==> {
                &&& final (self).slots@ == old(self).slots@.update(i as int, true)
                &&& final (self).reqed == old(self).reqed + 1
                &&& final (self).finished == old(self).finished
            },
            !issued ==> {
                &&& final (self).slots@ == old(self).slots@
                &&& final (self).reqed == old(self).reqed
                &&& final (self).finished == old(self).finished
            },
    {
        if !self.slots[i] && self.reqed < self.try_count {
            self.slots.set(i, true);
            self.reqed = self.reqed + 1;
            proof {
                lemma_count_true_update(old(self).slots@, i as int, true);
            }
            true
        } else {
            false
        }
    }

    /// The batch in slot `i` has completed: the slot empties and the
    /// completion is counted.
    pub fn complete(&mut self, i: usize)
        requires
            old(self).wf(),
            i < old(self).nreq,
            old(self).slots@[i as int],
        ensures
            final (self).wf(),
            final (self).nreq == old(self).nreq,
            final (self).try_count == old(self).try_count,
            final (self).slots@ == old(self).slots@.update(i as int, false),
            final (self).reqed == old(self).reqed,
            final (self).finished == old(self).finished + 1,
    {
        self.slots.set(i, false);
        proof {
            lemma_count_true_update(old(self).slots@, i as int, false);
            lemma_count_true_bounds(self.slots@);
        }
        self.finished = self.finished + 1;
    }

    /// Whether the run is over.
    pub fn is_done(&self) -> (r: bool)
        ensures
            r == self.done(),
    {
        self.finished == self.try_count
    }

    /// When the run is over nothing is outstanding: exactly
    /// `try_count` batches were issued and every slot is empty.
    pub proof fn lemma_done_drained(&self)
        requires
            self.wf(),
            self.done(),
        ensures
            self.reqed == self.try_count,
            forall|i: int| 0 <= i < self.slots@.len() ==> !self.slots@[i],
    {
        lemma_count_true_bounds(self.slots@);
        lemma_count_true_zero(self.slots@);
    }
}

proof fn lemma_count_all_false(s: Seq<bool>)
    requires
        forall|i: int| 0 <= i < s.len() ==> !s[i],
    ensures
        count_true(s) == 0,
    decreases s.len(),
{
    if s.len() > 0 {
        lemma_count_all_false(s.drop_last());
    }
}

/// One scheduling choice against a job's handshake: which worker or
/// stage attempts its transition next.
#[derive(Clone, Copy, Debug)]
pub enum JobStep {
    /// Receive worker `i` attempts to deposit.
    Recv(u64),
    /// Send worker `i` attempts to transmit.
    Send(u64),
    /// The reducer attempts to take the batch.
    Reduce,
}

/// Executes an arbitrary schedule of attempts against one job's masks,
/// each attempt taking effect only when its guard holds. Under every
/// order of attempts the counters stay locked to the reducer's: a
/// receive worker has deposited exactly once per completed reduction,
/// plus one if its bit is still pending; a send worker has transmitted
/// exactly once per completed reduction, less one if its buffer is
/// still marked free. A schedule that ends back at the initial masks
/// has therefore moved every worker exactly as often as the reducer —
/// no interleaving can lose or duplicate a pass.
pub fn run_job_schedule(recv_threads: u64, send_threads: u64, schedule: &Vec<JobStep>) -> (r: (
    JobMasks,
    Vec<usize>,
    Vec<usize>,
    usize,
))
    requires
        1 <= recv_threads <= 63,
        1 <= send_threads <= 63,
        schedule@.len() < usize::MAX,
    ensures
        r.0.wf(recv_threads, send_threads),
        r.1@.len() == recv_threads,
        r.2@.len() == send_threads,
        r.3 <= schedule@.len(),
        forall|i: int|
            0 <= i < recv_threads ==> #[trigger] r.1@[i] == r.3 + (if get_bit(
                r.0.recv_ready,
                i as u64,
            ) {
                1int
            } else {
                0int
            }),
        forall|i: int|
            0 <= i < send_threads ==> #[trigger] r.2@[i] + 1 == r.3 + (if get_bit(
                r.0.send_ready,
                i as u64,
            ) {
                1int
            } else {
                0int
            }),
{
    let mut masks = JobMasks::new(recv_threads, send_threads);
    let mut recv_counts: Vec<usize> = crate::utils::vec_of_zero(recv_threads as usize);
    let mut send_counts: Vec<usize> = crate::utils::vec_of_zero(send_threads as usize);
    let mut fires: usize = 0;
    proof {
        assert forall|i: int| 0 <= i < send_threads implies #[trigger] get_bit(
            masks.send_ready,
            i as u64,
        ) by {
            crate::mask::lemma_full_mask_bits(send_threads, i as u64);
        }
        assert forall|i: int| 0 <= i < recv_threads implies !(#[trigger] get_bit(
            masks.recv_ready,
            i as u64,
        )) by {
            crate::mask::lemma_zero_mask_clear(i as u64);
        }
    }
    let mut t: usize = 0;
    while t < schedule.len()
        invariant
            1 <= recv_threads <= 63,
            1 <= send_threads <= 63,
            schedule@.len() < usize::MAX,
            t <= schedule@.len(),
            masks.wf(recv_threads, send_threads),
            recv_counts@.len() == recv_threads,
            send_counts@.len() == send_threads,
            fires <= t,
            forall|i: int|
                0 <= i < recv_threads ==> #[trigger] recv_counts@[i] == fires + (if get_bit(
                    masks.recv_ready,
                    i as u64,
                ) {
                    1int
                } else {
                    0int
                }),
            forall|i: int|
                0 <= i < send_threads ==> #[trigger] send_counts@[i] + 1 == fires + (if get_bit(
                    masks.send_ready,
                    i as u64,
                ) {
                    1int
                } else {
                    0int
                }),
        decreases schedule@.len() - t,
    {
        match schedule[t] {
            JobStep::Recv(i) => {
                if i < recv_threads && masks.recv_slot_free(i) {
                    masks.recv_publish(i, recv_threads, send_threads);
                    let c = recv_counts[i as usize] + 1;
                    recv_counts.set(i as usize, c);
                }
            },
            JobStep::Send(i) => {
                if i < send_threads && masks.send_slot_ready(i) {
                    masks.send_publish(i, recv_threads, send_threads);
                    let c = send_counts[i as usize] + 1;
                    send_counts.set(i as usize, c);
                }
            },
            JobStep::Reduce => {
                if masks.reduce_can_fire(recv_threads, send_threads) {
                    let ghost before = masks;
                    masks.reduce_fire(recv_threads, send_threads);
                    fires += 1;
                    proof {
                        assert forall|i: int| 0 <= i < 64 implies !(#[trigger] get_bit(
                            0u64,
                            i as u64,
                        )) by {
                            crate::mask::lemma_zero_mask_clear(i as u64);
                        }
                        assert forall|i: int| 0 <= i < recv_threads implies #[trigger] get_bit(
                            before.recv_ready,
                            i as u64,
                        ) by {
                            crate::mask::lemma_full_mask_bits(recv_threads, i as u64);
                        }
                        assert forall|i: int| 0 <= i < send_threads implies #[trigger] get_bit(
                            before.send_ready,
                            i as u64,
                        ) by {
                            crate::mask::lemma_full_mask_bits(send_threads, i as u64);
                        }
                    }
                }
            },
        }
        t += 1;
    }
    (masks, recv_counts, send_counts, fires)
}

/// Thread-count selection: on the command line, zero receive or send
/// threads means one per rank.
pub fn normalize_threads(threads: usize, nrank: usize) -> (r: usize)
    ensures
        r == if threads == 0 {
            nrank as int
        } else {
            threads as int
        },
{
    if threads == 0 {
        nrank
    } else {
        threads
    }
}

/// Which worker mailbox a newly accepted rank's endpoint is handed
/// to: ranks are round-robined over the pool.
pub fn mailbox_index(rank_idx: usize, pool: usize) -> (r: usize)
    requires
        1 <= pool,
    ensures
        r == rank_idx as int % pool as int,
        r < pool,
{
    proof {
        vstd::arithmetic::div_mod::lemma_mod_bound(rank_idx as int, pool as int);
    }
    rank_idx % pool
}

} // verus!
