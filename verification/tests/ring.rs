use reduction_server::ring::gather_recv_part;
use reduction_server::ring::gather_send_part;
use reduction_server::ring::ring_all_reduce;
use reduction_server::ring::ring_all_reduce_bounded;
use reduction_server::ring::ring_reduce_can_fire;
use reduction_server::ring::ring_reduce_step;
use reduction_server::ring::ring_slot_initial;
use reduction_server::ring::ring_try_count;
use reduction_server::ring::run_comm_tasks;
use reduction_server::ring::scatter_recv_part;
use reduction_server::ring::scatter_send_part;
use reduction_server::ring::TaskState;

// Ring of four peers seeded with their ring rank: every peer ends with
// 1 + 2 + 3 + 4 = 10 in every partition.
#[test]
fn test_ring_equivalence() {
    let n = 4usize;
    let contribs: Vec<Vec<i64>> = (0..n).map(|k| vec![(k + 1) as i64; n]).collect();
    let accs = ring_all_reduce(&contribs);
    assert_eq!(accs.len(), 4);
    for acc in &accs {
        assert_eq!(acc.as_slice(), &[10, 10, 10, 10]);
    }
}

#[test]
fn test_ring_all_reduce_arbitrary() {
    // per-partition column sums, not just constants
    let contribs: Vec<Vec<i64>> = vec![
        vec![1, -2, 30],
        vec![4, 5, -6],
        vec![-7, 8, 9],
    ];
    let accs = ring_all_reduce(&contribs);
    for acc in &accs {
        assert_eq!(acc.as_slice(), &[-2, 11, 33]);
    }
}

#[test]
fn test_ring_single_peer() {
    let accs = ring_all_reduce(&vec![vec![5, 6]]);
    assert_eq!(accs, vec![vec![5, 6]]);
}

#[test]
fn test_step_partition_indices() {
    // N = 4, ring rank 2: the partitions each step touches
    assert_eq!(scatter_recv_part(4, 2, 0), 2);
    assert_eq!(scatter_send_part(4, 2, 0), 1);
    assert_eq!(scatter_recv_part(4, 2, 1), 3);
    assert_eq!(scatter_send_part(4, 2, 1), 2);
    assert_eq!(scatter_recv_part(4, 2, 2), 0);
    assert_eq!(scatter_send_part(4, 2, 2), 3);
    assert_eq!(gather_recv_part(4, 2, 0), 1);
    assert_eq!(gather_send_part(4, 2, 0), 0);
    assert_eq!(gather_recv_part(4, 2, 2), 3);
    assert_eq!(gather_send_part(4, 2, 2), 2);
}

#[test]
fn test_ring_try_count_formula() {
    // try_count · tasks / nreq / nring
    assert_eq!(ring_try_count(100, 6, 1, 2), 300);
    assert_eq!(ring_try_count(100, 6, 2, 2), 150);
    assert_eq!(ring_try_count(7, 3, 2, 2), 5);
}

#[test]
fn test_task_state_cycle() {
    let mut t = TaskState::new(0, 2, 3, 2, 2, true);
    // recv task: ready value is 0
    assert!(!t.can_issue(1, 0)); // buffers not ready
    assert!(!t.can_issue(0, 1)); // token names the other task
    assert!(t.can_issue(0, 0));
    let token = t.issue(0, 0);
    assert_eq!(token, 1); // token moves on
    assert!(!t.can_issue(0, 0)); // a batch is outstanding
    let (done, ready) = t.complete();
    assert!(!done);
    assert_eq!(ready, 2); // hands the slot to the reducers
    assert!(t.can_issue(0, 0));
    t.issue(0, 0);
    let (done, _) = t.complete();
    assert!(done); // both passes made
    assert!(!t.can_issue(0, 0));
}

#[test]
fn test_task_state_send_side() {
    let mut t = TaskState::new(1, 2, 1, 1, 2, false);
    // send task: ready value is reduce_threads, done value 0
    assert!(!t.can_issue(0, 1));
    assert!(t.can_issue(2, 1));
    let token = t.issue(2, 1);
    assert_eq!(token, 0); // wraps around the nreq tasks
    let (done, ready) = t.complete();
    assert!(done);
    assert_eq!(ready, 0);
}

#[test]
fn test_ring_reduce_counters() {
    let reduce_threads = 2usize;
    let mut recv_ready = 1usize;
    let mut send_ready = 0usize;
    assert!(ring_reduce_can_fire(recv_ready, send_ready, reduce_threads));
    ring_reduce_step(&mut recv_ready, &mut send_ready, reduce_threads);
    assert_eq!((recv_ready, send_ready), (0, 1));
    // nothing received: must not fire
    assert!(!ring_reduce_can_fire(recv_ready, send_ready, reduce_threads));
    // all reduce workers done with the slot: must not fire
    assert!(!ring_reduce_can_fire(1, reduce_threads, reduce_threads));
}

#[test]
fn test_ring_all_reduce_bounded_matches() {
    let contribs: Vec<Vec<i64>> = vec![vec![1, 2], vec![3, 4]];
    let accs = ring_all_reduce_bounded(&contribs, 4);
    for acc in &accs {
        assert_eq!(acc.as_slice(), &[4, 6]);
    }
}

#[test]
fn test_ring_slot_seed() {
    // only the last scatter step's slot starts pre-released
    assert_eq!(ring_slot_initial(0, 4, 2), 0);
    assert_eq!(ring_slot_initial(1, 4, 2), 0);
    assert_eq!(ring_slot_initial(2, 4, 2), 2);
}

// The shared issue token passes every in-flight task in turn: all of
// them finish with exactly the configured number of passes.
#[test]
fn test_comm_tasks_all_finish() {
    let tasks = run_comm_tasks(3, 2, 5, 2, true);
    assert_eq!(tasks.len(), 3);
    for t in &tasks {
        assert_eq!(t.count, 5);
        assert_eq!(t.reqcount, 5);
        assert!(!t.in_flight);
    }
}
