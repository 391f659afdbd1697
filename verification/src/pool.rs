use vstd::prelude::*;

verus! {

/// A message carried on the work channel: either one task to run, or the
/// instruction to a single worker to stop.
pub enum Message<T> {
    Job(T),
    Terminate,
}

/// What a worker must do after receiving one message.
pub enum Directive<T> {
    Run(T),
    Exit,
}

/// The lifecycle state of one worker.
#[derive(PartialEq, Eq, Structural, Clone, Copy, Debug)]
pub enum WorkerState {
    Idle,
    Running,
    Terminated,
}

/// The transitions a worker may take: an idle worker may start a task or
/// terminate, and a running worker may only finish its task and become idle.
pub open spec fn worker_transition_allowed(s1: WorkerState, s2: WorkerState) -> bool {
    ||| (s1 == WorkerState::Idle && s2 == WorkerState::Running)
    ||| (s1 == WorkerState::Running && s2 == WorkerState::Idle)
    ||| (s1 == WorkerState::Idle && s2 == WorkerState::Terminated)
}

/// A terminated worker takes no further transition: termination is final.
pub proof fn lemma_terminated_is_final(s: WorkerState)
    ensures
        !worker_transition_allowed(WorkerState::Terminated, s),
{
}

/// The decision a worker makes about one received message: a job is run,
/// a termination signal makes the worker exit its loop.
pub fn worker_decide<T>(msg: Message<T>) -> (d: Directive<T>)
    ensures
        msg matches Message::Job(t) ==> d == Directive::Run(t),
        msg is Terminate ==> d == Directive::<T>::Exit,
{
    match msg {
        Message::Job(t) => Directive::Run(t),
        Message::Terminate => Directive::Exit,
    }
}

/// One worker: an immutable identity and its current lifecycle state.
#[derive(Clone, Copy)]
pub struct Worker {
    pub id: usize,
    pub state: WorkerState,
}

impl Worker {
    /// A fresh worker starts idle, waiting for its first message.
    pub fn new(id: usize) -> (w: Worker)
        ensures
            w.id == id,
            w.state == WorkerState::Idle,
    {
        Worker { id, state: WorkerState::Idle }
    }

    /// Receiving a message moves an idle worker to running (on a job) or to
    /// its terminal state (on a termination signal), never anything else.
    pub fn receive<T>(&mut self, msg: Message<T>) -> (d: Directive<T>)
        requires
            old(self).state == WorkerState::Idle,
        ensures
            final(self).id == old(self).id,
            worker_transition_allowed(old(self).state, final(self).state),
            msg matches Message::Job(t) ==> d == Directive::Run(t)
                && final(self).state == WorkerState::Running,
            msg is Terminate ==> d == Directive::<T>::Exit
                && final(self).state == WorkerState::Terminated,
    {
        let d = worker_decide(msg);
        match d {
            Directive::Run(_) => {
                self.state = WorkerState::Running;
            }
            Directive::Exit => {
                self.state = WorkerState::Terminated;
            }
        }
        d
    }

    /// Finishing the current task returns a running worker to idle.
    pub fn complete(&mut self)
        requires
            old(self).state == WorkerState::Running,
        ensures
            final(self).id == old(self).id,
            final(self).state == WorkerState::Idle,
            worker_transition_allowed(old(self).state, final(self).state),
    {
        self.state = WorkerState::Idle;
    }
}

/// The single logical work queue: messages leave in exactly the order they
/// entered, whichever producer enqueued them.
pub struct WorkQueue<T> {
    items: Vec<Message<T>>,
}

impl<T> View for WorkQueue<T> {
    type V = Seq<Message<T>>;

    closed spec fn view(&self) -> Seq<Message<T>> {
        self.items@
    }
}

impl<T> WorkQueue<T> {
    /// A new queue holds nothing.
    pub fn new() -> (q: WorkQueue<T>)
        ensures
            q@ == Seq::<Message<T>>::empty(),
    {
        WorkQueue { items: Vec::new() }
    }

    pub fn len(&self) -> (n: usize)
        ensures
            n == self@.len(),
    {
        self.items.len()
    }

    /// Enqueue one message at the back.
    pub fn push(&mut self, m: Message<T>)
        ensures
            final(self)@ == old(self)@.push(m),
    {
        self.items.push(m);
    }

    /// Dequeue the message at the front, if any: first in, first out.
    pub fn pop(&mut self) -> (m: Option<Message<T>>)
        ensures
            old(self)@.len() == 0 ==> m is None && final(self)@ == old(self)@,
            old(self)@.len() > 0 ==> m == Some(old(self)@[0])
                && final(self)@ == old(self)@.skip(1),
    {
        if self.items.len() == 0 {
            None
        } else {
            let first = self.items.remove(0);
            proof {
                assert(old(self).items@.remove(0) =~= old(self).items@.skip(1));
            }
            Some(first)
        }
    }
}

/// The pool: it owns its workers and the sending side of the work channel.
/// The ghost history records every task ever submitted, in submission order.
#[verifier::reject_recursive_types(T)]
pub struct ThreadPool<T> {
    workers: Vec<Worker>,
    history: Ghost<Seq<T>>,
}

impl<T> ThreadPool<T> {
    /// The number of workers, fixed at construction.
    pub closed spec fn spec_size(&self) -> nat {
        self.workers@.len()
    }

    /// All tasks submitted so far, oldest first.
    pub closed spec fn submitted(&self) -> Seq<T> {
        self.history@
    }

    /// The pool's worker records.
    pub closed spec fn spec_workers(&self) -> Seq<Worker> {
        self.workers@
    }

    /// A well-formed pool has at least one worker, and worker `i` carries
    /// identity `i`: identities are unique and cover `0 .. size`.
    pub closed spec fn wf(&self) -> bool {
        &&& self.workers@.len() >= 1
        &&& forall|i: int|
            0 <= i < self.workers@.len() ==> (#[trigger] self.workers@[i]).id == i
    }

    /// Construct a pool of exactly `size` workers, identities `0 .. size`,
    /// with nothing submitted yet. A pool of zero workers would leave every
    /// future submission waiting forever, so it is ruled out here.
    pub fn new(size: usize) -> (p: ThreadPool<T>)
        requires
            size >= 1,
        ensures
            p.wf(),
            p.spec_size() == size,
            p.submitted() == Seq::<T>::empty(),
            forall|i: int|
                0 <= i < size ==> #[trigger] p.spec_workers()[i] == (Worker {
                    id: i as usize,
                    state: WorkerState::Idle,
                }),
    {
        let mut workers: Vec<Worker> = Vec::new();
        let mut id: usize = 0;
        while id < size
            invariant
                id <= size,
                workers@.len() == id,
                forall|i: int|
                    0 <= i < id ==> #[trigger] workers@[i] == (Worker {
                        id: i as usize,
                        state: WorkerState::Idle,
                    }),
            decreases size - id,
        {
            workers.push(Worker::new(id));
            id += 1;
        }
        ThreadPool { workers, history: Ghost(Seq::empty()) }
    }

    pub fn size(&self) -> (n: usize)
        ensures
            n == self.spec_size(),
    {
        self.workers.len()
    }

    /// Submission wraps the task in a job message for the work channel and
    /// records it in the submission history; it never waits for execution.
    pub fn execute(&mut self, task: T) -> (m: Message<T>)
        requires
            old(self).wf(),
        ensures
            final(self).wf(),
            final(self).spec_workers() == old(self).spec_workers(),
            final(self).spec_size() == old(self).spec_size(),
            m == Message::Job(task),
            final(self).submitted() == old(self).submitted().push(task),
    {
        proof {
            assert(self.workers@ =~= old(self).workers@);
        }
        let ghost h = self.history@.push(task);
        self.history = Ghost(h);
        Message::Job(task)
    }

    /// Begin teardown. Consuming the pool makes a second teardown
    /// unrepresentable; the returned machine dictates the whole protocol:
    /// one termination signal per worker first, then a join of every worker.
    pub fn terminate(self) -> (sd: Shutdown)
        requires
            self.wf(),
        ensures
            sd.wf(),
            sd.spec_size() == self.spec_size(),
            sd.sent() == 0,
            sd.joined() == 0,
    {
        Shutdown { size: self.workers.len(), sent: 0, joined: 0 }
    }
}

/// One step of the shutdown protocol, to be performed by the caller.
#[derive(PartialEq, Eq, Structural, Clone, Copy, Debug)]
pub enum ShutdownAction {
    /// Enqueue one termination message on the work channel.
    Signal,
    /// Wait until the worker with this identity has exited.
    Join(usize),
    /// Every signal is sent and every worker has exited.
    Done,
}

/// The two-phase shutdown machine: it hands out `size` signal steps before
/// any join step, because a termination message is not addressed to a
/// particular worker — joining earlier could wait on a worker whose signal
/// was taken by another.
pub struct Shutdown {
    size: usize,
    sent: usize,
    joined: usize,
}

impl Shutdown {
    pub closed spec fn spec_size(&self) -> nat {
        self.size as nat
    }

    pub closed spec fn sent(&self) -> nat {
        self.sent as nat
    }

    pub closed spec fn joined(&self) -> nat {
        self.joined as nat
    }

    /// No signal is counted twice, no join is counted twice, and no join
    /// happens before every signal is out.
    pub closed spec fn wf(&self) -> bool {
        &&& self.sent <= self.size
        &&& self.joined <= self.size
        &&& self.joined > 0 ==> self.sent == self.size
    }

    pub open spec fn done(&self) -> bool {
        self.sent() == self.spec_size() && self.joined() == self.spec_size()
    }

    /// The next action of the protocol: all signals first, then the joins in
    /// identity order, then done.
    pub fn step(&mut self) -> (a: ShutdownAction)
        requires
            old(self).wf(),
        ensures
            final(self).wf(),
            final(self).spec_size() == old(self).spec_size(),
            old(self).sent() < old(self).spec_size() ==> a == ShutdownAction::Signal
                && final(self).sent() == old(self).sent() + 1
                && final(self).joined() == old(self).joined(),
            old(self).sent() == old(self).spec_size() && old(self).joined()
                < old(self).spec_size() ==> a == ShutdownAction::Join(
                old(self).joined() as usize,
            ) && final(self).sent() == old(self).sent() && final(self).joined() == old(
                self,
            ).joined() + 1,
            old(self).done() ==> a == ShutdownAction::Done && *final(self) == *old(self),
    {
        if self.sent < self.size {
            self.sent += 1;
            ShutdownAction::Signal
        } else if self.joined < self.size {
            let w = self.joined;
            self.joined += 1;
            ShutdownAction::Join(w)
        } else {
            ShutdownAction::Done
        }
    }
}

/// The full action sequence of a shutdown of `n` workers: `n` termination
/// signals, then the joins of workers `0 .. n` in order.
pub open spec fn shutdown_trace(n: nat) -> Seq<ShutdownAction> {
    Seq::new(
        2 * n,
        |i: int|
            if i < n {
                ShutdownAction::Signal
            } else {
                ShutdownAction::Join((i - n) as usize)
            },
    )
}

/// Teardown is deadlock-free at the protocol level: driving the shutdown
/// machine to completion takes exactly `2 * size` steps (it cannot run
/// forever), every worker is signalled exactly once before any join, and
/// every worker is joined exactly once, in identity order.
pub fn run_shutdown(sd: Shutdown) -> (acts: Vec<ShutdownAction>)
    requires
        sd.wf(),
        sd.sent() == 0,
        sd.joined() == 0,
    ensures
        acts@ == shutdown_trace(sd.spec_size()),
        acts@.len() == 2 * sd.spec_size(),
        forall|i: int| 0 <= i < sd.spec_size() ==> acts@[i] == ShutdownAction::Signal,
        forall|i: int|
            sd.spec_size() <= i < 2 * sd.spec_size() ==> acts@[i] == ShutdownAction::Join(
                (i - sd.spec_size()) as usize,
            ),
{
    let ghost n = sd.spec_size();
    let mut mach = sd;
    let mut acts: Vec<ShutdownAction> = Vec::new();
    loop
        invariant
            mach.wf(),
            mach.spec_size() == n,
            n == sd.spec_size(),
            acts@.len() == mach.sent() + mach.joined(),
            acts@ == shutdown_trace(n).take((mach.sent() + mach.joined()) as int),
        decreases 2 * n - mach.sent() - mach.joined(),
    {
        let a = mach.step();
        match a {
            ShutdownAction::Done => {
                proof {
                    assert(acts@ =~= shutdown_trace(n));
                }
                return acts;
            }
            _ => {
                acts.push(a);
                proof {
                    assert(acts@ =~= shutdown_trace(n).take((mach.sent() + mach.joined()) as int));
                }
            }
        }
    }
}

/// The messages a sequence of submissions puts on the work channel.
pub open spec fn jobs_of<T>(tasks: Seq<T>) -> Seq<Message<T>> {
    tasks.map(|i: int, t: T| Message::Job(t))
}

/// `n` termination messages, one per worker.
pub open spec fn terminations<T>(n: nat) -> Seq<Message<T>> {
    Seq::new(n, |i: int| Message::<T>::Terminate)
}

/// Every task submitted before shutdown is handed out exactly once, in
/// submission order, and delivery ends. Each task goes through the pool's
/// own submission call, so the queue holds the pool's whole submission
/// history as jobs, followed by one termination message per worker;
/// draining it with the worker's own decision rule delivers exactly the
/// submitted tasks, oldest first, leaves no message behind, and stops after
/// finitely many receives once every worker has exited. With a single
/// consumer this dequeue order is also the execution order.
pub fn deliver_all<T>(tasks: Vec<T>, size: usize) -> (executed: Vec<T>)
    requires
        size >= 1,
    ensures
        executed@ == tasks@,
{
    let ghost all_tasks: Seq<T> = tasks@;
    let mut pool: ThreadPool<T> = ThreadPool::new(size);
    let mut remaining = tasks;
    let mut queue: WorkQueue<T> = WorkQueue::new();
    let ghost mut k: int = 0;
    while remaining.len() > 0
        invariant
            pool.wf(),
            0 <= k <= all_tasks.len(),
            remaining@ == all_tasks.skip(k),
            pool.submitted() == all_tasks.take(k),
            queue@ == jobs_of(pool.submitted()),
        decreases remaining@.len(),
    {
        let t = remaining.remove(0);
        proof {
            assert(all_tasks.skip(k)[0] == all_tasks[k]);
            assert(all_tasks.skip(k).remove(0) =~= all_tasks.skip(k + 1));
        }
        let m = pool.execute(t);
        queue.push(m);
        proof {
            k = k + 1;
            assert(pool.submitted() =~= all_tasks.take(k));
            assert(queue@ =~= jobs_of(pool.submitted()));
        }
    }
    proof {
        assert(all_tasks.take(k) =~= all_tasks);
        assert(queue@ == jobs_of(all_tasks));
    }
    let mut j: usize = 0;
    while j < size
        invariant
            j <= size,
            queue@ == jobs_of(all_tasks) + terminations::<T>(j as nat),
        decreases size - j,
    {
        queue.push(Message::Terminate);
        j += 1;
        proof {
            assert(queue@ =~= jobs_of(all_tasks) + terminations::<T>(j as nat));
        }
    }
    let ghost full: Seq<Message<T>> = jobs_of(all_tasks) + terminations::<T>(size as nat);
    let ghost tlen: int = all_tasks.len() as int;
    let mut active = size;
    let mut executed: Vec<T> = Vec::new();
    let ghost mut pos: int = 0;
    while active > 0
        invariant
            size >= 1,
            full == jobs_of(all_tasks) + terminations::<T>(size as nat),
            tlen == all_tasks.len(),
            0 <= pos <= full.len(),
            full.len() == tlen + size,
            queue@ == full.skip(pos),
            active <= size,
            pos <= tlen ==> active == size && executed@ == all_tasks.take(pos),
            pos > tlen ==> executed@ == all_tasks && active == size - (pos - tlen),
        decreases full.len() - pos,
    {
        proof {
            assert(queue@.len() > 0);
            assert(queue@[0] == full[pos]);
        }
        let msg = queue.pop().unwrap();
        match worker_decide(msg) {
            Directive::Run(t) => {
                executed.push(t);
            }
            Directive::Exit => {
                active -= 1;
            }
        }
        proof {
            if pos < tlen {
                assert(full[pos] == jobs_of(all_tasks)[pos]);
                assert(all_tasks.take(pos + 1) =~= all_tasks.take(pos).push(all_tasks[pos]));
            } else {
                assert(full[pos] == terminations::<T>(size as nat)[pos - tlen]);
            }
            pos = pos + 1;
            if pos == tlen {
                assert(all_tasks.take(pos) =~= all_tasks);
            }
        }
    }
    executed
}

/// Full utilization: a pool's workers start tasks independently of one
/// another, so all `n` workers of a pool can be running tasks at the same
/// time. Handing one task to each idle worker leaves every worker running,
/// with its identity unchanged; no worker has to wait for another to finish.
pub fn start_all<T>(workers: &mut Vec<Worker>, tasks: Vec<T>)
    requires
        old(workers)@.len() == tasks@.len(),
        forall|i: int|
            0 <= i < old(workers)@.len() ==> (#[trigger] old(workers)@[i]).state
                == WorkerState::Idle,
    ensures
        final(workers)@.len() == old(workers)@.len(),
        forall|i: int|
            0 <= i < final(workers)@.len() ==> (#[trigger] final(workers)@[i]).state
                == WorkerState::Running && final(workers)@[i].id == old(workers)@[i].id,
{
    let mut remaining = tasks;
    let mut i: usize = 0;
    let n = workers.len();
    while i < n
        invariant
            i <= n,
            n == workers@.len(),
            n == old(workers)@.len(),
            remaining@.len() == n - i,
            forall|j: int|
                i <= j < n ==> (#[trigger] workers@[j]).state == WorkerState::Idle
                    && workers@[j].id == old(workers)@[j].id,
            forall|j: int|
                0 <= j < i ==> (#[trigger] workers@[j]).state == WorkerState::Running
                    && workers@[j].id == old(workers)@[j].id,
        decreases n - i,
    {
        let t = remaining.remove(0);
        let mut w = workers[i];
        w.receive(Message::Job(t));
        workers[i] = w;
        i += 1;
    }
}

} // verus!
