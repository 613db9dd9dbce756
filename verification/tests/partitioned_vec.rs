use reduction_server::partitioned_vec::PartitionedVec;

// Four workers, one partition each, ten increments per worker: the
// whole buffer ends at [10, 10, 10, 10].
#[test]
fn test_partitioned_vec() {
    let mut vec = PartitionedVec::<i32>::new(4, 4, 4).unwrap();
    for worker in 0..4usize {
        for _ in 0..10 {
            let v = vec.read_elem(worker, 0);
            vec.write_elem(worker, 0, v + 1);
        }
    }
    assert_eq!(vec.lock().as_slice(), &[10, 10, 10, 10]);
}

#[test]
fn test_new_zero_initialized() {
    let vec = PartitionedVec::<i32>::new(4096, 8, 2).unwrap();
    assert_eq!(vec.len(), 8);
    assert_eq!(vec.num_partitions(), 2);
    assert_eq!(vec.part_len(), 4);
    assert_eq!(vec.lock().as_slice(), &[0; 8]);
}

#[test]
fn test_from_value_fill() {
    let vec = PartitionedVec::<i64>::from_value(4096, 6, 3, 7).unwrap();
    assert_eq!(vec.lock().as_slice(), &[7, 7, 7, 7, 7, 7]);
    assert_eq!(vec.part(1), vec![7, 7]);
}

#[test]
fn test_invalid_partition_size() {
    // 5 elements cannot split into 3 equal partitions
    let r = PartitionedVec::<i32>::new(4, 5, 3);
    assert!(r.is_err());
    let r = PartitionedVec::<i32>::from_value(4, 7, 2, 1);
    assert!(r.is_err());
}

#[test]
fn test_part_copies_correct_range() {
    let mut vec = PartitionedVec::<i32>::new(4, 6, 3).unwrap();
    for i in 0..6usize {
        vec.write_elem(i / 2, i % 2, i as i32);
    }
    assert_eq!(vec.part(0), vec![0, 1]);
    assert_eq!(vec.part(1), vec![2, 3]);
    assert_eq!(vec.part(2), vec![4, 5]);
}

#[test]
fn test_set_part_leaves_others() {
    let mut vec = PartitionedVec::<i32>::from_value(4, 6, 3, 9).unwrap();
    vec.set_part(1, &vec![1, 2]);
    assert_eq!(vec.lock().as_slice(), &[9, 9, 1, 2, 9, 9]);
}
