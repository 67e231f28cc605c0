use dstructs::order::{greater, less};

#[test]
fn less_and_greater_on_integers() {
    assert!(less(&1, &2));
    assert!(!less(&2, &2));
    assert!(!less(&3, &2));
    assert!(greater(&3, &2));
    assert!(!greater(&2, &2));
    assert!(!greater(&1, &2));
    assert!(less(&i64::MIN, &i64::MAX));
    assert!(greater(&i64::MAX, &i64::MIN));
}

#[test]
fn less_and_greater_on_strings() {
    let a = String::from("apple");
    let b = String::from("pear");
    assert!(less(&a, &b));
    assert!(greater(&b, &a));
    assert!(!less(&a, &a));
    assert!(!greater(&a, &a));
}
