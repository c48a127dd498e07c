use allox::heap::MaxHeap;
use rand::Rng;

#[test]
fn top_is_the_maximum_and_pops_fall() {
    const N: usize = 500;
    let mut rng = rand::rng();
    let mut h = MaxHeap::new(N);
    let mut max = 0;
    for _ in 0..N {
        let val: usize = rng.random_range(0..2 * N);
        if val > max {
            max = val;
        }
        assert_eq!(h.push(val), Ok(()));
        assert_eq!(*h.top().unwrap(), max);
    }
    assert_eq!(h.dump().len(), N);
    let mut last = h.pop().unwrap();
    assert_eq!(last, max);
    let mut popped = 1;
    while let Ok(v) = h.pop() {
        assert!(v <= last);
        last = v;
        popped += 1;
    }
    assert_eq!(popped, N);
}

#[test]
fn full_heap_refuses_a_push() {
    let mut h = MaxHeap::new(2);
    assert_eq!(h.push(1), Ok(()));
    assert_eq!(h.push(2), Ok(()));
    assert_eq!(h.push(3), Err("Heap is full."));
    assert_eq!(h.dump(), &[2, 1]);
    let mut none = MaxHeap::new(0);
    assert_eq!(none.push(7), Err("Heap is full."));
}

#[test]
fn empty_heap_has_no_top_and_refuses_a_pop() {
    let mut h = MaxHeap::new(4);
    assert_eq!(h.top(), None);
    assert_eq!(h.pop(), Err("Heap is empty."));
    assert_eq!(h.push(9), Ok(()));
    assert_eq!(h.pop(), Ok(9));
    assert_eq!(h.pop(), Err("Heap is empty."));
    assert_eq!(h.top(), None);
}

#[test]
fn stored_order_is_heap_order() {
    let mut h = MaxHeap::new(8);
    for v in [3usize, 9, 4, 10, 1, 9] {
        h.push(v).unwrap();
    }
    assert_eq!(h.dump(), &[10, 9, 9, 3, 1, 4]);
    assert_eq!(h.pop(), Ok(10));
    assert_eq!(h.dump(), &[9, 4, 9, 3, 1]);
    assert_eq!(h.pop(), Ok(9));
    assert_eq!(h.pop(), Ok(9));
    assert_eq!(h.pop(), Ok(4));
    assert_eq!(h.dump(), &[3, 1]);
}

#[test]
fn clear_empties_and_keeps_the_limit() {
    let mut h = MaxHeap::new(3);
    for v in [5usize, 6, 7] {
        h.push(v).unwrap();
    }
    h.clear();
    assert_eq!(h.dump().len(), 0);
    assert_eq!(h.top(), None);
    for v in [1usize, 2, 3] {
        assert_eq!(h.push(v), Ok(()));
    }
    assert_eq!(h.push(4), Err("Heap is full."));
    assert_eq!(h.top(), Some(&3));
}

#[test]
fn equal_items_all_come_out() {
    let mut h = MaxHeap::new(5);
    for _ in 0..5 {
        h.push(42).unwrap();
    }
    for _ in 0..5 {
        assert_eq!(h.pop(), Ok(42));
    }
    assert_eq!(h.pop(), Err("Heap is empty."));
}
