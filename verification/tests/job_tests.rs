use threadpooler::job::Job;
use threadpooler::operation::Operation;
use threadpooler::pool::Pool;

struct AddOne;

impl Operation<usize> for AddOne {
    fn op_spec(&self, t: usize) -> usize {
        t + 1
    }

    fn apply(&self, t: &mut usize) {
        *t += 1;
    }
}

struct AssertZeroAddOne;

impl Operation<usize> for AssertZeroAddOne {
    fn op_spec(&self, t: usize) -> usize {
        t + 1
    }

    fn apply(&self, t: &mut usize) {
        assert_eq!(*t, 0);
        *t += 1;
    }
}

#[test]
fn test_job_order_1() {
    // the caller runs the job itself, then the workers receive it, then the
    // caller waits; a worker delivery after completion finds no work, and
    // the operation's own assert would catch any second visit
    let _pool = Pool::default();
    let mut elems = vec![0usize; 100];
    let mut job = Job::new(100, 1);
    job.execute(&mut elems, &AssertZeroAddOne);
    job.execute(&mut elems, &AssertZeroAddOne);
    job.wait();
}

#[test]
fn test_job_order_2() {
    // the caller runs the job itself and waits before the workers receive
    // it; the late delivery still converges without a second visit
    let _pool = Pool::default();
    let mut elems = vec![0usize; 100];
    let mut job = Job::new(100, 1);
    job.execute(&mut elems, &AssertZeroAddOne);
    job.wait();
    job.execute(&mut elems, &AssertZeroAddOne);
}

#[test]
fn test_partition_totals() {
    let job = Job::new(103, 2);
    assert_eq!(job.batches.len(), 16);
    assert_eq!(job.batches[0].offset, 0);
    assert_eq!(job.batches[0].count, 6 + 7);
    let mut sum: usize = 0;
    for b in job.batches.iter() {
        sum += b.count;
    }
    assert_eq!(sum, 103);
    for j in 1..16 {
        assert_eq!(job.batches[j].count, 6);
        assert_eq!(job.batches[j].offset, j * 6 + 7);
    }
}

#[test]
fn test_partition_zero_worker_hint() {
    let job = Job::new(10, 0);
    assert_eq!(job.batches.len(), 8);
    assert_eq!(job.batches[0].count, 1 + 2);
    let mut sum: usize = 0;
    for b in job.batches.iter() {
        sum += b.count;
    }
    assert_eq!(sum, 10);
}

#[test]
fn test_empty_job() {
    let mut job = Job::new(0, 3);
    let mut buf: Vec<usize> = Vec::new();
    job.execute(&mut buf, &AddOne);
    assert!(job.complete);
    assert_eq!(job.done_index, 0);
    job.wait();
}

#[test]
fn test_completion_signal_single_shot() {
    let mut job = Job::new(10, 1);
    assert!(!job.complete);
    let mut buf = vec![0usize; 10];
    job.execute(&mut buf, &AddOne);
    assert!(job.complete);
    assert_eq!(job.done_index, 10);
    job.wait();
}

#[test]
fn test_execute_converges_for_late_workers() {
    let mut job = Job::new(40, 1);
    let mut buf = vec![0usize; 40];
    job.execute(&mut buf, &AddOne);
    assert!(job.complete);
    // a worker that receives the job after completion finds no work, visits
    // nothing twice, and leaves the signal published
    job.execute(&mut buf, &AddOne);
    assert!(job.complete);
    assert_eq!(job.done_index, 40);
    for i in 0..40 {
        assert_eq!(buf[i], 1);
    }
}

#[test]
fn test_get_free_slot_prefers_free() {
    let mut job = Job::new(80, 1);
    assert_eq!(job.get_free_slot(), Some(0));
    assert_eq!(job.get_free_slot(), Some(1));
}

#[test]
fn test_get_free_slot_joins_when_nothing_free() {
    let mut job = Job::new(16, 1);
    for _ in 0..8 {
        job.get_free_slot();
    }
    // every batch is owned and none complete; the joiner picks a maximal
    // weight batch, tie broken by scan order as an iterator maximum is
    assert_eq!(job.get_free_slot(), Some(7));
    assert!(job.batches[7].pending_share);
    assert_eq!(job.batches[7].workers, 2);
}
