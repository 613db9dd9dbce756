use reduction_server::reduce::reduce;
use reduction_server::reduce::reduce_bounded;
use reduction_server::reduce::reduce_job;
use reduction_server::reduce::reduce_partition;
use reduction_server::partitioned_vec::PartitionedVec;

// Four ranks each contribute a constant tensor of 2: every element of
// the reduced tensor is 8.
#[test]
fn test_reduce_constant_tensors() {
    let count = 1024usize;
    let srcs: Vec<Vec<i64>> = (0..4).map(|_| vec![2i64; count]).collect();
    let mut dst = vec![0i64; count];
    reduce(&mut dst, &srcs).unwrap();
    assert!(dst.iter().all(|&v| v == 8));
}

#[test]
fn test_reduce_single_source_copies() {
    let srcs = vec![vec![3i64, -1, 4]];
    let mut dst = vec![9i64, 9, 9];
    reduce(&mut dst, &srcs).unwrap();
    assert_eq!(dst, vec![3, -1, 4]);
}

#[test]
fn test_reduce_elementwise() {
    let srcs = vec![vec![1i64, 2, 3], vec![10, 20, 30], vec![-100, 0, 100]];
    let mut dst = vec![0i64; 3];
    reduce(&mut dst, &srcs).unwrap();
    assert_eq!(dst, vec![-89, 22, 133]);
}

// Hierarchical aggregation: each child sums its two leaves' constant
// tensors of 2 to 4, the root sums the two children's sums to 8, and
// every leaf receives 8.
#[test]
fn test_hierarchical_sums() {
    let count = 16usize;
    let leaf = vec![2i64; count];
    let mut child_a = vec![0i64; count];
    reduce(&mut child_a, &vec![leaf.clone(), leaf.clone()]).unwrap();
    assert!(child_a.iter().all(|&v| v == 4));
    let mut child_b = vec![0i64; count];
    reduce(&mut child_b, &vec![leaf.clone(), leaf.clone()]).unwrap();
    let mut root = vec![0i64; count];
    reduce(&mut root, &vec![child_a, child_b]).unwrap();
    assert!(root.iter().all(|&v| v == 8));
}

#[test]
fn test_reduce_partition_frames_others() {
    // two partitions of two elements; reduce only partition 1
    let mut dst = PartitionedVec::<i64>::from_value(4, 4, 2, -5).unwrap();
    let srcs = vec![
        PartitionedVec::<i64>::from_value(4, 4, 2, 1).unwrap(),
        PartitionedVec::<i64>::from_value(4, 4, 2, 2).unwrap(),
        PartitionedVec::<i64>::from_value(4, 4, 2, 3).unwrap(),
    ];
    reduce_partition(&mut dst, &srcs, 1).unwrap();
    // partition 0 untouched, partition 1 reduced to 1 + 2 + 3
    assert_eq!(dst.lock().as_slice(), &[-5, -5, 6, 6]);
    reduce_partition(&mut dst, &srcs, 0).unwrap();
    assert_eq!(dst.lock().as_slice(), &[6, 6, 6, 6]);
}

#[test]
fn test_reduce_bounded_matches() {
    let srcs = vec![vec![1i64, 2, 3, 4, 1, 2, 3, 4], vec![5, 6, 7, 8, 5, 6, 7, 8]];
    let mut dst = vec![0i64; 8];
    reduce_bounded(&mut dst, &srcs, 8).unwrap();
    assert_eq!(dst, vec![6, 8, 10, 12, 6, 8, 10, 12]);
}

// The aggregator's full job: four ranks deposit constant tensors of 2,
// two reduce workers take one partition each, and every element of the
// output buffer ends at 8.
#[test]
fn test_aggregator_job_constant() {
    let count = 1024;
    let mut send_buf = PartitionedVec::<i64>::new(4096, count, 2).unwrap();
    let recv_bufs: Vec<_> = (0..4)
        .map(|_| PartitionedVec::<i64>::from_value(4096, count, 2, 2).unwrap())
        .collect();
    reduce_job(&mut send_buf, &recv_bufs, 2).unwrap();
    assert!(send_buf.lock().iter().all(|&v| v == 8));
}
