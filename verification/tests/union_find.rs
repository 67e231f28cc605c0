use dstructs::algorithm::union_find::UnionFind;

#[test]
fn new_sets_are_singletons() {
    let mut uf = UnionFind::new(6);
    for i in 0..6 {
        assert_eq!(uf.find(i), i);
    }
}

#[test]
fn union_gives_the_second_representative() {
    let mut uf = UnionFind::new(5);
    uf.union(0, 1);
    assert_eq!(uf.find(0), 1);
    assert_eq!(uf.find(1), 1);
    uf.union(1, 2);
    assert_eq!(uf.find(0), 2);
    assert_eq!(uf.find(1), 2);
    assert_eq!(uf.find(2), 2);
    assert_eq!(uf.find(3), 3);
    assert_eq!(uf.find(4), 4);
    uf.union(3, 4);
    uf.union(4, 0);
    for i in 0..5 {
        assert_eq!(uf.find(i), 2);
    }
}

#[test]
fn union_within_one_set_changes_nothing() {
    let mut uf = UnionFind::new(4);
    uf.union(0, 1);
    uf.union(2, 1);
    uf.union(0, 2);
    uf.union(1, 1);
    assert_eq!(uf.find(0), 1);
    assert_eq!(uf.find(2), 1);
    assert_eq!(uf.find(3), 3);
}

#[test]
fn find_is_stable_over_long_chains() {
    let n = 2000;
    let mut uf = UnionFind::new(n);
    for i in 0..n - 1 {
        uf.union(i, i + 1);
    }
    for i in 0..n {
        assert_eq!(uf.find(i), n - 1);
    }
    for i in 0..n {
        assert_eq!(uf.find(i), n - 1);
    }
}
