use reduction_server::mask::bit_is_clear;
use reduction_server::mask::full_mask;
use reduction_server::mask::is_full;
use reduction_server::mask::publish;

#[test]
fn test_full_mask_values() {
    assert_eq!(full_mask(0), 0);
    assert_eq!(full_mask(1), 1);
    assert_eq!(full_mask(4), 0b1111);
    assert_eq!(full_mask(63), u64::MAX >> 1);
}

#[test]
fn test_publish_sets_one_bit() {
    let m = publish(0, 2);
    assert_eq!(m, 0b100);
    let m = publish(m, 0);
    assert_eq!(m, 0b101);
    // publishing adds exactly the worker's bit, as a fetch-add does
    assert_eq!(publish(0b101, 1), 0b101 + 0b010);
}

#[test]
fn test_bit_is_clear_and_full() {
    let m = 0b1011u64;
    assert!(!bit_is_clear(m, 0));
    assert!(!bit_is_clear(m, 1));
    assert!(bit_is_clear(m, 2));
    assert!(!is_full(m, 4));
    assert!(is_full(0b1111, 4));
    assert!(!is_full(0b1111, 5));
}
