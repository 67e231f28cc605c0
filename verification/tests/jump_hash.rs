use dstructs::distributed::jump_hash::{next_key, take_bucket, MULTIPLIER};

#[test]
fn next_key_exact_values() {
    assert_eq!(MULTIPLIER, 2862933555777941757);
    assert_eq!(next_key(0), 1);
    assert_eq!(next_key(1), 2862933555777941758);
    assert_eq!(next_key(2), 5725867111555883515);
    assert_eq!(next_key(u64::MAX), 15583810517931609860);
    assert_eq!(next_key(7), 7u64.wrapping_mul(2862933555777941757).wrapping_add(1));
}

#[test]
fn take_bucket_without_distinct_takes_all() {
    let mut buckets = Vec::new();
    assert!(take_bucket(&mut buckets, 3, false));
    assert!(take_bucket(&mut buckets, 3, false));
    assert!(take_bucket(&mut buckets, 1, false));
    assert_eq!(buckets, vec![3, 3, 1]);
}

#[test]
fn take_bucket_with_distinct_refuses_repeats() {
    let mut buckets = Vec::new();
    assert!(take_bucket(&mut buckets, 3, true));
    assert!(!take_bucket(&mut buckets, 3, true));
    assert!(take_bucket(&mut buckets, 1, true));
    assert!(!take_bucket(&mut buckets, 1, true));
    assert!(!take_bucket(&mut buckets, 3, true));
    assert!(take_bucket(&mut buckets, 0, true));
    assert_eq!(buckets, vec![3, 1, 0]);
}
