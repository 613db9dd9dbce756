use reduction_server::pipeline::ClientDriver;
use reduction_server::pipeline::JobMasks;
use reduction_server::pipeline::JobStep;
use reduction_server::pipeline::run_job_schedule;
use reduction_server::pipeline::mailbox_index;
use reduction_server::pipeline::normalize_threads;
use reduction_server::pipeline::run_job_rounds;
use reduction_server::pipeline::upstream_fire;

#[test]
fn test_job_masks_one_round() {
    let (rr, rs) = (2u64, 3u64);
    let mut m = JobMasks::new(rr, rs);
    // initial: all send buffers free, nothing received
    assert_eq!(m.send_ready, 0b111);
    assert_eq!(m.recv_ready, 0);
    assert!(!m.reduce_can_fire(rr, rs));
    assert!(m.recv_slot_free(0));
    m.recv_publish(0, rr, rs);
    assert!(!m.recv_slot_free(0));
    assert!(!m.reduce_can_fire(rr, rs));
    m.recv_publish(1, rr, rs);
    assert!(m.reduce_can_fire(rr, rs));
    m.reduce_fire(rr, rs);
    assert_eq!((m.send_ready, m.recv_ready), (0, 0));
    // send workers observe their bits clear, transmit, and publish
    for i in 0..rs {
        assert!(m.send_slot_ready(i));
        m.send_publish(i, rr, rs);
    }
    assert_eq!(m.send_ready, 0b111);
    assert_eq!(m.recv_ready, 0);
}

// The deterministic round schedule: every worker sets and clears its
// bit exactly once per round, for any number of rounds, and the job
// returns to its initial masks.
#[test]
fn test_run_job_rounds_counts() {
    let (masks, recv_passes, send_passes, reduce_passes) = run_job_rounds(2, 4, 5);
    assert_eq!(masks.send_ready, 0b1111);
    assert_eq!(masks.recv_ready, 0);
    assert_eq!(recv_passes, vec![5, 5]);
    assert_eq!(send_passes, vec![5, 5, 5, 5]);
    assert_eq!(reduce_passes, 5);
}

#[test]
fn test_upstream_handoff() {
    let send_threads = 2u64;
    // the reducers have cleared their words; the senders are done
    let mut reduce_words = vec![0u64, 0u64];
    let mut down_word = 0b11u64;
    upstream_fire(&mut reduce_words, &mut down_word, send_threads);
    // reduction may refill; the senders distribute the global sum
    assert_eq!(reduce_words, vec![0b11, 0b11]);
    assert_eq!(down_word, 0);
}

#[test]
fn test_client_driver_run() {
    let mut d = ClientDriver::new(2, 3);
    assert!(!d.is_done());
    assert!(d.try_issue(0));
    assert!(d.try_issue(1));
    assert!(!d.try_issue(0)); // slot still outstanding
    d.complete(0);
    assert!(d.try_issue(0)); // the last batch
    assert!(!d.try_issue(1)); // all batches issued
    d.complete(1);
    d.complete(0);
    assert!(d.is_done());
    assert_eq!(d.reqed, 3);
    assert_eq!(d.finished, 3);
    assert!(!d.slots.iter().any(|&s| s));
}

#[test]
fn test_mailbox_round_robin() {
    assert_eq!(mailbox_index(0, 2), 0);
    assert_eq!(mailbox_index(1, 2), 1);
    assert_eq!(mailbox_index(2, 2), 0);
    assert_eq!(mailbox_index(5, 3), 2);
}

#[test]
fn test_normalize_thread_counts() {
    // zero means one per rank
    assert_eq!(normalize_threads(0, 4), 4);
    assert_eq!(normalize_threads(2, 4), 2);
}

// Any interleaving keeps every worker's pass count locked to the
// reducer's: attempts whose guard does not hold simply do nothing.
#[test]
fn test_job_schedule_any_order() {
    let schedule = vec![
        JobStep::Send(0), // blocked: buffer still marked free
        JobStep::Recv(0),
        JobStep::Recv(0), // blocked: deposit still pending
        JobStep::Reduce,  // blocked: one deposit missing
        JobStep::Recv(1),
        JobStep::Reduce,  // fires
        JobStep::Recv(1), // next round's deposit, concurrent with sends
        JobStep::Send(1),
        JobStep::Send(0),
        JobStep::Recv(0),
        JobStep::Reduce,  // fires again
    ];
    let (masks, recv_counts, send_counts, fires) = run_job_schedule(2, 2, &schedule);
    assert_eq!(fires, 2);
    // both receive workers deposited twice, both senders sent once;
    // after the second fire the send buffers are busy again
    assert_eq!(recv_counts, vec![2, 2]);
    assert_eq!(send_counts, vec![1, 1]);
    assert_eq!(masks.recv_ready, 0);
    assert_eq!(masks.send_ready, 0);
}
