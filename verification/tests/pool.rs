use taskpool::pool::{
    deliver_all, run_shutdown, start_all, worker_decide, Directive, Message, ShutdownAction,
    ThreadPool, WorkQueue, Worker, WorkerState,
};

#[test]
fn single_worker_runs_tasks_in_order() {
    let tasks: Vec<char> = vec!['A', 'B', 'C'];
    let executed = deliver_all(tasks, 1);
    assert_eq!(executed, vec!['A', 'B', 'C']);
}

#[test]
fn every_task_delivered_once_with_many_workers() {
    let tasks: Vec<u32> = (0..10).collect();
    let executed = deliver_all(tasks, 3);
    assert_eq!(executed, (0..10).collect::<Vec<u32>>());
}

#[test]
fn empty_pool_teardown_is_immediate() {
    let pool: ThreadPool<u8> = ThreadPool::new(2);
    let sd = pool.terminate();
    let acts = run_shutdown(sd);
    assert_eq!(
        acts,
        vec![
            ShutdownAction::Signal,
            ShutdownAction::Signal,
            ShutdownAction::Join(0),
            ShutdownAction::Join(1),
        ]
    );
    let executed = deliver_all(Vec::<u8>::new(), 2);
    assert!(executed.is_empty());
}

#[test]
fn shutdown_signals_every_worker_before_any_join() {
    let pool: ThreadPool<u8> = ThreadPool::new(5);
    let acts = run_shutdown(pool.terminate());
    assert_eq!(acts.len(), 10);
    for (idx, act) in acts.iter().enumerate() {
        if idx < 5 {
            assert_eq!(*act, ShutdownAction::Signal);
        } else {
            assert_eq!(*act, ShutdownAction::Join(idx - 5));
        }
    }
}

#[test]
fn shutdown_machine_steps_one_worker() {
    let pool: ThreadPool<u8> = ThreadPool::new(1);
    let mut sd = pool.terminate();
    assert_eq!(sd.step(), ShutdownAction::Signal);
    assert_eq!(sd.step(), ShutdownAction::Join(0));
    assert_eq!(sd.step(), ShutdownAction::Done);
    assert_eq!(sd.step(), ShutdownAction::Done);
}

#[test]
fn execute_wraps_task_in_job_message() {
    let mut pool: ThreadPool<&str> = ThreadPool::new(4);
    assert_eq!(pool.size(), 4);
    match pool.execute("hello") {
        Message::Job(t) => assert_eq!(t, "hello"),
        Message::Terminate => panic!("submission must produce a job message"),
    }
}

#[test]
fn worker_decide_runs_jobs_and_exits_on_terminate() {
    match worker_decide(Message::Job(7u8)) {
        Directive::Run(t) => assert_eq!(t, 7),
        Directive::Exit => panic!("a job must be run"),
    }
    match worker_decide(Message::<u8>::Terminate) {
        Directive::Exit => {}
        Directive::Run(_) => panic!("a termination signal must make the worker exit"),
    }
}

#[test]
fn worker_lifecycle_transitions() {
    let mut w = Worker::new(5);
    assert_eq!(w.id, 5);
    assert_eq!(w.state, WorkerState::Idle);
    match w.receive(Message::Job(1u8)) {
        Directive::Run(t) => assert_eq!(t, 1),
        Directive::Exit => panic!("a job must be run"),
    }
    assert_eq!(w.state, WorkerState::Running);
    w.complete();
    assert_eq!(w.state, WorkerState::Idle);
    w.receive(Message::<u8>::Terminate);
    assert_eq!(w.state, WorkerState::Terminated);
    assert_eq!(w.id, 5);
}

#[test]
fn all_workers_can_run_at_once() {
    let mut workers: Vec<Worker> = (0..4usize).map(Worker::new).collect();
    start_all(&mut workers, vec![10u8, 11, 12, 13]);
    assert_eq!(workers.len(), 4);
    for (idx, w) in workers.iter().enumerate() {
        assert_eq!(w.state, WorkerState::Running);
        assert_eq!(w.id, idx);
    }
}

#[test]
fn queue_is_fifo() {
    let mut q: WorkQueue<u8> = WorkQueue::new();
    assert_eq!(q.len(), 0);
    q.push(Message::Job(1));
    q.push(Message::Terminate);
    q.push(Message::Job(2));
    assert_eq!(q.len(), 3);
    match q.pop() {
        Some(Message::Job(v)) => assert_eq!(v, 1),
        _ => panic!("first message out must be the first job in"),
    }
    match q.pop() {
        Some(Message::Terminate) => {}
        _ => panic!("second message out must be the termination signal"),
    }
    match q.pop() {
        Some(Message::Job(v)) => assert_eq!(v, 2),
        _ => panic!("third message out must be the second job"),
    }
    assert!(q.pop().is_none());
}
