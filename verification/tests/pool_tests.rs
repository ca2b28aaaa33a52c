use std::cell::RefCell;
use threadpooler::operation::{MapOperation, Operation};
use threadpooler::pool::Pool;

struct AddOne;

impl Operation<usize> for AddOne {
    fn op_spec(&self, t: usize) -> usize {
        t + 1
    }

    fn apply(&self, t: &mut usize) {
        *t += 1;
    }
}

struct AddOneMap;

impl MapOperation<usize, usize> for AddOneMap {
    fn map_spec(&self, a: usize) -> usize {
        a + 1
    }

    fn compute(&self, a: &usize) -> usize {
        a + 1
    }
}

struct NestedSum;

impl MapOperation<usize, usize> for NestedSum {
    fn map_spec(&self, val: usize) -> usize {
        val + 100
    }

    fn compute(&self, val: &usize) -> usize {
        let array = vec![0usize; 100];
        let pool = Pool::default();
        let rv = pool.map(&array, &AddOneMap);
        let total: usize = rv.into_iter().sum();
        val + total
    }
}

struct Double;

impl Operation<usize> for Double {
    fn op_spec(&self, t: usize) -> usize {
        t * 2
    }

    fn apply(&self, t: &mut usize) {
        *t *= 2;
    }
}

struct CountingOp {
    calls: RefCell<usize>,
}

impl Operation<usize> for CountingOp {
    fn op_spec(&self, t: usize) -> usize {
        t + 1
    }

    fn apply(&self, t: &mut usize) {
        *self.calls.borrow_mut() += 1;
        *t += 1;
    }
}

#[test]
fn pool_test_pool() {
    let pool = Pool::default();
    let mut array = vec![0usize; 100];
    pool.dispatch_mut(&mut array, &AddOne);
    let expected = [1usize; 100];
    for i in 0..100 {
        assert_eq!(array[i], expected[i]);
    }
}

#[test]
fn test_map() {
    let pool = Pool::default();
    let array = vec![0usize; 100];
    let output = pool.map(&array, &AddOneMap);
    let expected = [1usize; 100];
    for i in 0..100 {
        assert_eq!(expected[i], output[i]);
    }
}

#[test]
fn test_static_reentrancy() {
    let pool = Pool::default();
    let array = vec![0usize; 100];
    let output = pool.map(&array, &NestedSum);
    let expected = [100usize; 100];
    for i in 0..100 {
        assert_eq!(expected[i], output[i]);
    }
}

#[test]
fn test_map_index_aligned() {
    let pool = Pool::default();
    let inputs: Vec<usize> = (0..100).collect();
    let output = pool.map(&inputs, &AddOneMap);
    assert_eq!(output.len(), 100);
    for i in 0..100 {
        assert_eq!(output[i], i + 1);
    }
}

#[test]
fn test_empty_dispatch() {
    let pool = Pool::default();
    let mut array: Vec<usize> = Vec::new();
    let op = CountingOp { calls: RefCell::new(0) };
    pool.dispatch_mut(&mut array, &op);
    assert_eq!(*op.calls.borrow(), 0);
    assert_eq!(array.len(), 0);
}

#[test]
fn test_exactly_once_coverage() {
    let pool = Pool { num_threads: 4 };
    let mut array = vec![0usize; 800];
    let op = CountingOp { calls: RefCell::new(0) };
    pool.dispatch_mut(&mut array, &op);
    assert_eq!(*op.calls.borrow(), 800);
    for i in 0..800 {
        assert_eq!(array[i], 1);
    }
}

#[test]
fn test_repeated_dispatch_cycles() {
    let pool = Pool::default();
    let mut array = vec![0usize; 50];
    for _ in 0..5 {
        pool.dispatch_mut(&mut array, &AddOne);
    }
    for i in 0..50 {
        assert_eq!(array[i], 5);
    }
}

#[test]
fn test_dispatch_uneven_partition() {
    let pool = Pool { num_threads: 3 };
    let mut array: Vec<usize> = (0..103).collect();
    pool.dispatch_mut(&mut array, &Double);
    for i in 0..103 {
        assert_eq!(array[i], 2 * i);
    }
}

#[test]
fn test_thread_count_at_least_one() {
    assert!(Pool::get_thread_count() >= 1);
    assert!(Pool::default().num_threads >= 1);
}
