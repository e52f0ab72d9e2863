use artixide::number_pool::NumberPool;

#[test]
fn empty_pool_hands_out_one() {
    let mut pool = NumberPool::new();
    assert_eq!(pool.find_available_num(), Some(1));
    assert_eq!(pool.find_available_num(), Some(2));
}

#[test]
fn full_pool_hands_out_nothing() {
    let mut pool = NumberPool::new();
    for number in 1..=256u16 {
        pool.set_used(number);
    }
    assert_eq!(pool.find_available_num(), None);
    assert!(pool.is_used(256));
}

#[test]
fn released_number_is_found_again() {
    let mut pool = NumberPool::new();
    pool.set_used(1);
    pool.set_used(2);
    pool.set_used(3);
    pool.set_unused(2);
    assert!(!pool.is_used(2));
    assert_eq!(pool.find_available_num(), Some(2));
    assert_eq!(pool.find_available_num(), Some(4));
}
