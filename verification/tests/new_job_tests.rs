use threadpooler::new_job::Job;
use threadpooler::operation::Operation;

struct AddOne;

impl Operation<usize> for AddOne {
    fn op_spec(&self, t: usize) -> usize {
        t + 1
    }

    fn apply(&self, t: &mut usize) {
        *t += 1;
    }
}

#[test]
#[allow(non_snake_case)]
fn newJob_test_pool() {
    let mut array = vec![0usize; 100];
    let method = AddOne;
    let mut complete: u64 = 0;
    let mut pool = Job::create_job(100);

    loop {
        let done = complete;

        let new_job = pool.pop();

        if let Some(job) = new_job {
            job.run(&mut array, &method, &mut complete);
        }

        println!("Completed {}", done);

        if done == 99 {
            break;
        }
    }

    let expected = [1usize; 100];
    for i in 0..100 {
        assert_eq!(expected[i], expected[i]);
    }
}

#[test]
fn test_create_job_indices() {
    let jobs = Job::create_job(5);
    assert_eq!(jobs.len(), 5);
    for (i, job) in jobs.iter().enumerate() {
        assert_eq!(job.index, i);
    }
}

#[test]
fn test_run_updates_single_element() {
    let jobs = Job::create_job(3);
    let mut data = vec![10usize, 20, 30];
    let mut complete: u64 = 0;
    jobs[1].run(&mut data, &AddOne, &mut complete);
    assert_eq!(data, vec![10, 21, 30]);
    assert_eq!(complete, 1);
}
