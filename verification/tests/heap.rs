use dstructs::algorithm::binary_heap::BinaryHeap;
use dstructs::algorithm::heap::{drain as drain_heap, Heap};
use dstructs::algorithm::leftist_heap::{LeftistHeap, LeftistNode};
use dstructs::algorithm::pairing_heap::{PairingHeap, PairingNode};

fn gen_heap<T: Heap<i64>>() -> T {
    let cnt = rand::random::<usize>() % 10000 + 1000;
    let mut heap = T::with_capacity(cnt);
    for _ in 0..cnt {
        heap.push(rand::random());
    }

    heap
}

fn test_heap(mut heap: impl Heap<i64>) {
    let mut prev = i64::MIN;
    while !heap.is_empty() {
        assert!(heap.peek().unwrap() >= &prev);
        prev = heap.pop().unwrap();
    }
}

fn test_push<T: Heap<i64>>() {
    let heap: T = gen_heap();
    test_heap(heap);
}

fn test_build<T: Heap<i64>>() {
    let cnt = rand::random::<usize>() % 10000 + 1000;
    let mut data = Vec::with_capacity(cnt);
    data.resize_with(cnt, || rand::random());

    let heap = T::build(data);
    test_heap(heap);
}

fn test_merge<T: Heap<i64>>() {
    let a: T = gen_heap();
    let b: T = gen_heap();
    let heap = T::merge(a, b);
    test_heap(heap);
}

#[test]
fn test_binary() {
    test_push::<BinaryHeap<_>>();
    test_build::<BinaryHeap<_>>();
}

#[test]
fn test_pairing() {
    test_push::<PairingHeap<_>>();
    test_build::<PairingHeap<_>>();
    test_merge::<PairingHeap<_>>()
}

#[test]
fn test_leftist() {
    test_push::<LeftistHeap<_>>();
    test_build::<LeftistHeap<_>>();
    test_merge::<LeftistHeap<_>>();
}

fn drain<T: Heap<i64>>(mut heap: T) -> Vec<i64> {
    let mut out = Vec::new();
    while let Some(min) = heap.pop() {
        out.push(min);
    }
    assert!(heap.is_empty());
    out
}

fn push_pop_in_order<T: Heap<i64>>() {
    let mut heap = T::new();
    assert!(heap.is_empty());
    heap.push(5);
    heap.push(3);
    heap.push(8);
    assert!(!heap.is_empty());
    assert_eq!(heap.peek(), Some(&3));
    assert_eq!(heap.pop(), Some(3));
    assert_eq!(heap.peek(), Some(&5));
    assert_eq!(heap.pop(), Some(5));
    assert_eq!(heap.pop(), Some(8));
    assert!(heap.is_empty());
    assert_eq!(heap.pop(), None);
}

fn build_then_drain<T: Heap<i64>>() {
    let heap = T::build(vec![9, 1, 4, 1, 7]);
    assert_eq!(drain(heap), vec![1, 1, 4, 7, 9]);
    let empty = T::build(Vec::new());
    assert!(empty.is_empty());
    assert_eq!(drain(empty), Vec::<i64>::new());
}

fn merge_then_drain<T: Heap<i64>>() {
    let a = T::build(vec![5, 2, 8]);
    let b = T::build(vec![1, 9]);
    assert_eq!(drain(T::merge(a, b)), vec![1, 2, 5, 8, 9]);
}

fn merge_with_empty<T: Heap<i64>>() {
    let a = T::build(vec![4, 6, 2]);
    assert_eq!(drain(T::merge(T::new(), a)), vec![2, 4, 6]);
    let b = T::build(vec![4, 6, 2]);
    assert_eq!(drain(T::merge(b, T::new())), vec![2, 4, 6]);
    assert!(T::merge(T::new(), T::new()).is_empty());
}

fn empty_gives_nothing<T: Heap<i64>>() {
    let mut heap = T::new();
    assert_eq!(heap.peek(), None);
    assert_eq!(heap.pop(), None);
    assert!(heap.is_empty());
    let mut sized = T::with_capacity(16);
    assert_eq!(sized.peek(), None);
    assert_eq!(sized.pop(), None);
    assert!(sized.is_empty());
}

fn random_drain_is_sorted_input<T: Heap<i64>>() {
    let cnt = rand::random::<usize>() % 10000 + 1000;
    let mut data: Vec<i64> = Vec::with_capacity(cnt);
    data.resize_with(cnt, || rand::random());
    let heap = T::build(data.clone());
    let out = drain(heap);
    data.sort();
    assert_eq!(out.len(), cnt);
    assert_eq!(out, data);
}

fn many_ties_and_long_chains<T: Heap<i64>>() {
    let mut heap = T::new();
    for i in 0..2000 {
        heap.push(i % 7);
    }
    for i in (0..2000).rev() {
        heap.push(i);
    }
    let out = drain(heap);
    assert_eq!(out.len(), 4000);
    let mut expected: Vec<i64> = (0..2000).map(|i| i % 7).chain(0..2000).collect();
    expected.sort();
    assert_eq!(out, expected);
}

fn interleaved<T: Heap<i64>>() {
    let mut heap = T::new();
    heap.push(10);
    heap.push(-4);
    assert_eq!(heap.pop(), Some(-4));
    heap.push(7);
    heap.push(12);
    heap.push(7);
    assert_eq!(heap.pop(), Some(7));
    assert_eq!(heap.pop(), Some(7));
    heap.push(i64::MIN);
    heap.push(i64::MAX);
    assert_eq!(heap.pop(), Some(i64::MIN));
    assert_eq!(heap.pop(), Some(10));
    assert_eq!(heap.pop(), Some(12));
    assert_eq!(heap.pop(), Some(i64::MAX));
    assert_eq!(heap.pop(), None);
}

#[test]
fn binary_push_pop_in_order() {
    push_pop_in_order::<BinaryHeap<i64>>();
}

#[test]
fn pairing_push_pop_in_order() {
    push_pop_in_order::<PairingHeap<i64>>();
}

#[test]
fn leftist_push_pop_in_order() {
    push_pop_in_order::<LeftistHeap<i64>>();
}

#[test]
fn binary_build_then_drain() {
    build_then_drain::<BinaryHeap<i64>>();
}

#[test]
fn pairing_build_then_drain() {
    build_then_drain::<PairingHeap<i64>>();
}

#[test]
fn leftist_build_then_drain() {
    build_then_drain::<LeftistHeap<i64>>();
}

#[test]
fn binary_merge_then_drain() {
    merge_then_drain::<BinaryHeap<i64>>();
}

#[test]
fn pairing_merge_then_drain() {
    merge_then_drain::<PairingHeap<i64>>();
}

#[test]
fn leftist_merge_then_drain() {
    merge_then_drain::<LeftistHeap<i64>>();
}

#[test]
fn binary_merge_with_empty() {
    merge_with_empty::<BinaryHeap<i64>>();
}

#[test]
fn pairing_merge_with_empty() {
    merge_with_empty::<PairingHeap<i64>>();
}

#[test]
fn leftist_merge_with_empty() {
    merge_with_empty::<LeftistHeap<i64>>();
}

#[test]
fn binary_empty_gives_nothing() {
    empty_gives_nothing::<BinaryHeap<i64>>();
}

#[test]
fn pairing_empty_gives_nothing() {
    empty_gives_nothing::<PairingHeap<i64>>();
}

#[test]
fn leftist_empty_gives_nothing() {
    empty_gives_nothing::<LeftistHeap<i64>>();
}

#[test]
fn binary_random_drain_is_sorted_input() {
    random_drain_is_sorted_input::<BinaryHeap<i64>>();
}

#[test]
fn pairing_random_drain_is_sorted_input() {
    random_drain_is_sorted_input::<PairingHeap<i64>>();
}

#[test]
fn leftist_random_drain_is_sorted_input() {
    random_drain_is_sorted_input::<LeftistHeap<i64>>();
}

#[test]
fn binary_many_ties_and_long_chains() {
    many_ties_and_long_chains::<BinaryHeap<i64>>();
}

#[test]
fn pairing_many_ties_and_long_chains() {
    many_ties_and_long_chains::<PairingHeap<i64>>();
}

#[test]
fn leftist_many_ties_and_long_chains() {
    many_ties_and_long_chains::<LeftistHeap<i64>>();
}

#[test]
fn binary_interleaved() {
    interleaved::<BinaryHeap<i64>>();
}

#[test]
fn pairing_interleaved() {
    interleaved::<PairingHeap<i64>>();
}

#[test]
fn leftist_interleaved() {
    interleaved::<LeftistHeap<i64>>();
}

#[test]
fn binary_random_merge_keeps_every_element() {
    let a: Vec<i64> = (0..1500).map(|_| rand::random()).collect();
    let b: Vec<i64> = (0..700).map(|_| rand::random()).collect();
    let heap = BinaryHeap::merge(BinaryHeap::build(a.clone()), BinaryHeap::build(b.clone()));
    assert_eq!(heap.len(), 2200);
    let mut all = a;
    all.extend(b);
    all.sort();
    assert_eq!(drain(heap), all);
}

#[test]
fn binary_len_counts_elements() {
    let mut heap = BinaryHeap::new();
    assert_eq!(heap.len(), 0);
    heap.push(3i64);
    heap.push(1);
    assert_eq!(heap.len(), 2);
    heap.pop();
    assert_eq!(heap.len(), 1);
}

#[test]
fn pairing_node_merge_keeps_smaller_on_top() {
    let a = Box::new(PairingNode::new(4i64));
    let b = Box::new(PairingNode::new(2i64));
    let c = Box::new(PairingNode::new(9i64));
    let root = PairingNode::merge(PairingNode::merge(a, b), c);
    let (min, rest) = (*root).pop();
    assert_eq!(min, 2);
    let (next, rest) = (*rest.unwrap()).pop();
    assert_eq!(next, 4);
    let (last, rest) = (*rest.unwrap()).pop();
    assert_eq!(last, 9);
    assert!(rest.is_none());
}

#[test]
fn pairing_node_merges_keeps_a_single_node() {
    let only = Box::new(PairingNode::new(1i64)).merges();
    let (min, rest) = (*only).pop();
    assert_eq!(min, 1);
    assert!(rest.is_none());
}

#[test]
fn pairing_pop_consolidates_many_children() {
    let mut heap = PairingHeap::new();
    heap.push(0i64);
    for i in [6, 3, 9, 1, 8, 2, 7, 5, 4] {
        heap.push(i);
    }
    assert_eq!(drain(heap), vec![0, 1, 2, 3, 4, 5, 6, 7, 8, 9]);
}

#[test]
fn leftist_node_merge_and_pop() {
    let a = Box::new(LeftistNode::new(4i64));
    let b = Box::new(LeftistNode::new(2i64));
    let c = Box::new(LeftistNode::new(9i64));
    let root = LeftistNode::merge(a, LeftistNode::merge(b, c));
    let (min, rest) = (*root).pop();
    assert_eq!(min, 2);
    let (next, rest) = (*rest.unwrap()).pop();
    assert_eq!(next, 4);
    let (last, rest) = (*rest.unwrap()).pop();
    assert_eq!(last, 9);
    assert!(rest.is_none());
}

fn library_drain_empties_the_heap<T: Heap<i64>>() {
    let mut heap = T::build(vec![3, -2, 11, 3, 0, -2]);
    assert_eq!(drain_heap(&mut heap), vec![-2, -2, 0, 3, 3, 11]);
    assert!(heap.is_empty());
    assert_eq!(drain_heap(&mut heap), Vec::<i64>::new());
    heap.push(1);
    assert_eq!(drain_heap(&mut heap), vec![1]);
}

#[test]
fn binary_library_drain() {
    library_drain_empties_the_heap::<BinaryHeap<i64>>();
}

#[test]
fn pairing_library_drain() {
    library_drain_empties_the_heap::<PairingHeap<i64>>();
}

#[test]
fn leftist_library_drain() {
    library_drain_empties_the_heap::<LeftistHeap<i64>>();
}

fn leftist_check(tree: &Option<Box<LeftistNode<i64>>>, floor: i64, count: &mut usize) -> usize {
    match tree {
        None => 0,
        Some(node) => {
            *count += 1;
            assert!(node.elem >= floor);
            let left = leftist_check(&node.left, node.elem, count);
            let right = leftist_check(&node.right, node.elem, count);
            assert!(left >= right);
            assert_eq!(node.hist, right + 1);
            node.hist
        }
    }
}

#[test]
fn leftist_tree_keeps_ranks_and_order() {
    let mut tree: Option<Box<LeftistNode<i64>>> = None;
    let mut pushed = 0;
    for round in 0..300i64 {
        let elem = (round * 7919) % 257 - 100;
        let node = Box::new(LeftistNode::new(elem));
        tree = Some(match tree {
            None => node,
            Some(root) => LeftistNode::merge(root, node),
        });
        pushed += 1;
        let mut count = 0;
        leftist_check(&tree, i64::MIN, &mut count);
        assert_eq!(count, pushed);
    }
    let mut prev = i64::MIN;
    while let Some(root) = tree {
        let (elem, rest) = (*root).pop();
        assert!(elem >= prev);
        prev = elem;
        pushed -= 1;
        let mut count = 0;
        leftist_check(&rest, elem, &mut count);
        assert_eq!(count, pushed);
        tree = rest;
    }
    assert_eq!(pushed, 0);
}

#[test]
fn leftist_merge_shape() {
    let one = LeftistNode::new(1i64);
    assert_eq!(one.hist, 1);
    assert!(one.left.is_none() && one.right.is_none());
    let two = LeftistNode::merge(Box::new(one), Box::new(LeftistNode::new(5)));
    assert_eq!(two.elem, 1);
    assert_eq!(two.hist, 1);
    assert_eq!(two.left.as_ref().unwrap().elem, 5);
    assert!(two.right.is_none());
    let three = LeftistNode::merge(two, Box::new(LeftistNode::new(3)));
    assert_eq!(three.elem, 1);
    assert_eq!(three.hist, 2);
    assert_eq!(three.left.as_ref().unwrap().elem, 5);
    assert_eq!(three.right.as_ref().unwrap().elem, 3);
    let four = LeftistNode::merge(Box::new(LeftistNode::new(0)), three);
    assert_eq!(four.elem, 0);
    assert_eq!(four.hist, 1);
    assert_eq!(four.left.as_ref().unwrap().elem, 1);
    assert!(four.right.is_none());
    let tie = LeftistNode::merge(
        Box::new(LeftistNode::new(7)),
        Box::new(LeftistNode {
            elem: 7,
            hist: 1,
            left: Some(Box::new(LeftistNode::new(8))),
            right: None,
        }),
    );
    assert_eq!(tie.elem, 7);
    assert!(tie.right.is_none());
    assert_eq!(tie.left.as_ref().unwrap().elem, 7);
    assert_eq!(tie.left.as_ref().unwrap().left.as_ref().unwrap().elem, 8);
}

fn pairing_check(link: &Option<Box<PairingNode<i64>>>, floor: i64, count: &mut usize) {
    let mut curr = link;
    while let Some(node) = curr {
        *count += 1;
        assert!(node.elem >= floor);
        pairing_check(&node.child, node.elem, count);
        curr = &node.brother;
    }
}

#[test]
fn pairing_tree_keeps_order() {
    let mut tree: Option<Box<PairingNode<i64>>> = None;
    let mut pushed = 0;
    for round in 0..300i64 {
        let elem = (round * 104729) % 311 - 150;
        let node = Box::new(PairingNode::new(elem));
        tree = Some(match tree {
            None => node,
            Some(root) => PairingNode::merge(root, node),
        });
        pushed += 1;
        let mut count = 0;
        pairing_check(&tree, i64::MIN, &mut count);
        assert_eq!(count, pushed);
    }
    let mut prev = i64::MIN;
    while let Some(root) = tree {
        assert!(root.brother.is_none());
        let (elem, rest) = (*root).pop();
        assert!(elem >= prev);
        prev = elem;
        pushed -= 1;
        let mut count = 0;
        pairing_check(&rest, elem, &mut count);
        assert_eq!(count, pushed);
        tree = rest;
    }
    assert_eq!(pushed, 0);
}

#[test]
fn pairing_merge_shape() {
    let four = Box::new(PairingNode::new(4i64));
    let two = Box::new(PairingNode::new(2i64));
    let root = PairingNode::merge(four, two);
    assert_eq!(root.elem, 2);
    assert!(root.brother.is_none());
    assert_eq!(root.child.as_ref().unwrap().elem, 4);
    assert!(root.child.as_ref().unwrap().brother.is_none());
    let root = PairingNode::merge(root, Box::new(PairingNode::new(9)));
    assert_eq!(root.elem, 2);
    let first = root.child.as_ref().unwrap();
    assert_eq!(first.elem, 9);
    assert_eq!(first.brother.as_ref().unwrap().elem, 4);
    let tie = PairingNode::merge(root, Box::new(PairingNode::new(2)));
    assert_eq!(tie.elem, 2);
    let first = tie.child.as_ref().unwrap();
    assert_eq!(first.elem, 2);
    assert!(first.child.is_none());
    assert_eq!(first.brother.as_ref().unwrap().elem, 9);
}

#[test]
fn pairing_merges_pairs_then_folds() {
    // the chain 5 -> 3 -> 8 -> 1 -> 6
    let chain = Box::new(PairingNode {
        elem: 5i64,
        child: None,
        brother: Some(Box::new(PairingNode {
            elem: 3,
            child: None,
            brother: Some(Box::new(PairingNode {
                elem: 8,
                child: None,
                brother: Some(Box::new(PairingNode {
                    elem: 1,
                    child: None,
                    brother: Some(Box::new(PairingNode::new(6))),
                })),
            })),
        })),
    });
    // pairs: (3 over 5), (1 over 8), 6; folded from the right: 1 over 6 over 8,
    // then 1 over (3 over 5) in front of its other children
    let root = chain.merges();
    assert_eq!(root.elem, 1);
    assert!(root.brother.is_none());
    let first = root.child.as_ref().unwrap();
    assert_eq!(first.elem, 3);
    assert_eq!(first.child.as_ref().unwrap().elem, 5);
    let second = first.brother.as_ref().unwrap();
    assert_eq!(second.elem, 6);
    let third = second.brother.as_ref().unwrap();
    assert_eq!(third.elem, 8);
    assert!(third.brother.is_none());
}

#[test]
fn pairing_consolidates_a_very_long_chain() {
    let n = 300_000i64;
    let mut heap = PairingHeap::new();
    for i in 0..n {
        heap.push(i);
    }
    for i in 0..n {
        assert_eq!(heap.pop(), Some(i));
    }
    assert!(heap.is_empty());
}

#[test]
fn leftist_takes_long_runs_both_ways() {
    let n = 100_000i64;
    let mut heap = LeftistHeap::new();
    for i in 0..n {
        heap.push(i);
    }
    for i in (n..2 * n).rev() {
        heap.push(i);
    }
    for i in 0..2 * n {
        assert_eq!(heap.pop(), Some(i));
    }
    assert!(heap.is_empty());
}
