use std::collections::VecDeque;
use vstd::prelude::*;

verus! {

/// An entry of the task queue: a unit of work, or the signal for one worker
/// to stop.
pub enum Item<T> {
    Task(T),
    Stop,
}

/// An unbounded first-in first-out queue of items, shared by the producer
/// side of the pool and all of its workers.
pub struct TaskQueue<T> {
    items: VecDeque<Item<T>>,
}

impl<T> View for TaskQueue<T> {
    type V = Seq<Item<T>>;

    closed spec fn view(&self) -> Seq<Item<T>> {
        self.items@
    }
}

impl<T> TaskQueue<T> {
    /// An empty queue.
    pub fn new() -> (q: TaskQueue<T>)
        ensures
            q@ == Seq::<Item<T>>::empty(),
    {
        TaskQueue { items: VecDeque::new() }
    }

    /// Puts `item` at the back of the queue.
    pub fn send(&mut self, item: Item<T>)
        ensures
            final(self)@ == old(self)@.push(item),
    {
        self.items.push_back(item);
    }

    /// Takes the item at the front of the queue, if there is one.
    pub fn recv(&mut self) -> (r: Option<Item<T>>)
        ensures
            old(self)@.len() == 0 ==> r is None && final(self)@ == old(self)@,
            old(self)@.len() > 0 ==> r == Some(old(self)@[0]) && final(self)@ == old(
                self,
            )@.drop_first(),
    {
        let r = self.items.pop_front();
        proof {
            if old(self)@.len() > 0 {
                assert(final(self)@ =~= old(self)@.drop_first());
            }
        }
        r
    }

    /// Number of items waiting.
    pub fn len(&self) -> (r: usize)
        ensures
            r == self@.len(),
    {
        self.items.len()
    }
}

/// The record of one worker: its position in spawn order, whether its thread
/// handle is still held (not yet taken to be joined), and whether it has
/// received its stop signal.
#[derive(Clone, Copy, PartialEq, Eq, Structural, Debug)]
pub struct Worker {
    pub id: usize,
    pub has_handle: bool,
    pub stopped: bool,
}

/// Why a pool operation did nothing.
#[derive(Clone, Copy, PartialEq, Eq, Structural, Debug)]
pub enum PoolError {
    /// The pool has not been initialized.
    Uninitialized,
    /// The pool was initialized before; it is initialized once.
    AlreadyInitialized,
    /// The pool has workers and every one of them has stopped, so nothing
    /// would ever take the item.
    Disconnected,
}

/// What a worker gets from the queue.
pub enum Received<T> {
    /// A task to run.
    Task(T),
    /// The signal to stop; the worker is now recorded as stopped.
    Stop,
    /// Nothing is queued yet: wait and ask again.
    Empty,
}

/// The state of a worker pool: its workers and, once initialized, its queue.
pub struct Pool<T> {
    workers: Vec<Worker>,
    initialized: bool,
    queue: TaskQueue<T>,
}

/// The abstract state of a pool: the worker records, and the queue contents
/// once the pool is initialized (`None` before).
pub struct PoolView<T> {
    pub workers: Seq<Worker>,
    pub queue: Option<Seq<Item<T>>>,
}

impl<T> View for Pool<T> {
    type V = PoolView<T>;

    closed spec fn view(&self) -> PoolView<T> {
        PoolView {
            workers: self.workers@,
            queue: if self.initialized {
                Some(self.queue@)
            } else {
                None
            },
        }
    }
}

impl<T> PoolView<T> {
    /// Worker `i` has id `i`, and an uninitialized pool has no workers.
    pub open spec fn wf(self) -> bool {
        &&& forall|i: int| 0 <= i < self.workers.len() ==> (#[trigger] self.workers[i]).id == i
        &&& self.queue is None ==> self.workers.len() == 0
    }

    pub open spec fn initialized(self) -> bool {
        self.queue is Some
    }

    /// The queue still has a receiving side: a pool without workers keeps it,
    /// and otherwise some worker has not yet received its stop signal.
    pub open spec fn receiving(self) -> bool {
        self.workers.len() == 0 || exists|i: int|
            0 <= i < self.workers.len() && !(#[trigger] self.workers[i]).stopped
    }

    /// The queue contents, empty before initialization.
    pub open spec fn queued(self) -> Seq<Item<T>> {
        match self.queue {
            Some(q) => q,
            None => Seq::empty(),
        }
    }
}

/// `n` workers with ids `0..n`, each holding its handle and running.
pub open spec fn fresh_workers(n: nat) -> Seq<Worker> {
    Seq::new(n, |i: int| Worker { id: i as usize, has_handle: true, stopped: false })
}

/// `n` stop signals.
pub open spec fn stops<T>(n: nat) -> Seq<Item<T>> {
    Seq::new(n, |i: int| Item::<T>::Stop)
}

pub open spec fn init_with_result<T>(p: PoolView<T>) -> Result<(), PoolError> {
    if p.initialized() {
        Err(PoolError::AlreadyInitialized)
    } else {
        Ok(())
    }
}

/// Initialization creates `jobs` fresh workers and an empty queue; an
/// initialized pool is left as it is.
pub open spec fn after_init_with<T>(p: PoolView<T>, jobs: nat) -> PoolView<T> {
    if p.initialized() {
        p
    } else {
        PoolView { workers: fresh_workers(jobs), queue: Some(Seq::empty()) }
    }
}

pub open spec fn bg_result<T>(p: PoolView<T>) -> Result<(), PoolError> {
    if !p.initialized() {
        Err(PoolError::Uninitialized)
    } else if !p.receiving() {
        Err(PoolError::Disconnected)
    } else {
        Ok(())
    }
}

/// Submission queues the task at the back, when the pool is initialized and
/// its queue has a receiving side.
pub open spec fn after_bg<T>(p: PoolView<T>, task: T) -> PoolView<T> {
    if bg_result(p) is Ok {
        PoolView { workers: p.workers, queue: Some(p.queued().push(Item::Task(task))) }
    } else {
        p
    }
}

/// The ids of `ws`, in order.
pub open spec fn ids_of(ws: Seq<Worker>) -> Seq<usize> {
    ws.map_values(|w: Worker| w.id)
}

/// `Ok` with the ids of the workers whose stop signal could not be delivered:
/// none while the queue has a receiving side, all of them otherwise.
pub open spec fn shutdown_result<T>(p: PoolView<T>) -> Result<Seq<usize>, PoolError> {
    if !p.initialized() {
        Err(PoolError::Uninitialized)
    } else if p.receiving() {
        Ok(Seq::empty())
    } else {
        Ok(ids_of(p.workers))
    }
}

/// Shutting down queues one stop signal per registered worker.
pub open spec fn after_shutdown<T>(p: PoolView<T>) -> PoolView<T> {
    if p.initialized() && p.receiving() {
        PoolView { workers: p.workers, queue: Some(p.queued() + stops(p.workers.len())) }
    } else {
        p
    }
}

/// What a worker receives: the front of the queue, or `Empty`.
pub open spec fn received<T>(p: PoolView<T>) -> Received<T> {
    if p.queued().len() == 0 {
        Received::Empty
    } else {
        match p.queued()[0] {
            Item::Task(t) => Received::Task(t),
            Item::Stop => Received::Stop,
        }
    }
}

/// Receiving removes the front of the queue; a stop signal marks worker `w`
/// as stopped.
pub open spec fn after_receive<T>(p: PoolView<T>, w: int) -> PoolView<T> {
    if p.queued().len() == 0 {
        p
    } else {
        PoolView {
            workers: if p.queued()[0] is Stop {
                p.workers.update(
                    w,
                    Worker { id: p.workers[w].id, has_handle: p.workers[w].has_handle, stopped: true },
                )
            } else {
                p.workers
            },
            queue: Some(p.queued().drop_first()),
        }
    }
}

/// The workers with their handles taken.
pub open spec fn handles_taken(ws: Seq<Worker>) -> Seq<Worker> {
    ws.map_values(|w: Worker| Worker { id: w.id, has_handle: false, stopped: w.stopped })
}

/// The ids of the workers that still hold a handle, in order.
pub open spec fn handle_ids(ws: Seq<Worker>) -> Seq<usize>
    decreases ws.len(),
{
    if ws.len() == 0 {
        Seq::empty()
    } else if ws.last().has_handle {
        handle_ids(ws.drop_last()).push(ws.last().id)
    } else {
        handle_ids(ws.drop_last())
    }
}

/// A blocking shutdown signals as `after_shutdown` does, then takes every
/// handle to be joined.
pub open spec fn after_shutdown_blocking<T>(p: PoolView<T>) -> PoolView<T> {
    let s = after_shutdown(p);
    PoolView { workers: handles_taken(s.workers), queue: s.queue }
}

/// What a blocking shutdown leaves to do: the workers whose stop signal could
/// not be delivered, and the workers whose threads are to be joined, in
/// registration order.
pub struct BlockingShutdown {
    pub unsignalled: Vec<usize>,
    pub to_join: Vec<usize>,
}

impl<T> Pool<T> {
    /// An uninitialized pool with no workers.
    pub fn new() -> (p: Pool<T>)
        ensures
            p@.queue is None,
            p@.workers.len() == 0,
            p@.wf(),
    {
        Pool { workers: Vec::new(), initialized: false, queue: TaskQueue::new() }
    }

    /// Whether the pool has been initialized.
    pub fn is_initialized(&self) -> (r: bool)
        ensures
            r == self@.initialized(),
    {
        self.initialized
    }

    /// Number of registered workers.
    pub fn worker_count(&self) -> (r: usize)
        ensures
            r == self@.workers.len(),
    {
        self.workers.len()
    }

    /// The record of worker `i`.
    pub fn worker(&self, i: usize) -> (r: Worker)
        requires
            i < self@.workers.len(),
        ensures
            r == self@.workers[i as int],
    {
        self.workers[i]
    }

    /// Number of queued items.
    pub fn queued_len(&self) -> (r: usize)
        ensures
            r == self@.queued().len(),
    {
        if self.initialized {
            self.queue.len()
        } else {
            0
        }
    }

    fn is_receiving(&self) -> (r: bool)
        ensures
            r == self@.receiving(),
    {
        if self.workers.len() == 0 {
            return true;
        }
        let mut i: usize = 0;
        while i < self.workers.len()
            invariant
                i <= self.workers@.len(),
                forall|k: int| 0 <= k < i ==> (#[trigger] self.workers@[k]).stopped,
            decreases self.workers@.len() - i,
        {
            if !self.workers[i].stopped {
                assert(!self@.workers[i as int].stopped);
                return true;
            }
            i = i + 1;
        }
        false
    }
}

/// Initializes `pool` with `jobs` workers, ids `0..jobs` in spawn order, and
/// a fresh empty queue. A pool that is already initialized is left as it is
/// and the call fails with `AlreadyInitialized`.
pub fn init_with<T>(pool: &mut Pool<T>, jobs: usize) -> (r: Result<(), PoolError>)
    requires
        old(pool)@.wf(),
    ensures
        r == init_with_result(old(pool)@),
        final(pool)@ == after_init_with(old(pool)@, jobs as nat),
        final(pool)@.wf(),
{
    if pool.initialized {
        return Err(PoolError::AlreadyInitialized);
    }
    let mut workers: Vec<Worker> = Vec::new();
    let mut i: usize = 0;
    while i < jobs
        invariant
            i <= jobs,
            workers@ == fresh_workers(i as nat),
        decreases jobs - i,
    {
        workers.push(Worker { id: i, has_handle: true, stopped: false });
        i = i + 1;
        assert(workers@ =~= fresh_workers(i as nat));
    }
    pool.workers = workers;
    pool.queue = TaskQueue::new();
    pool.initialized = true;
    assert(pool@.workers =~= fresh_workers(jobs as nat));
    Ok(())
}

/// The number of workers `init` starts: the host's parallelism when known,
/// else one.
pub open spec fn default_jobs(available: Option<usize>) -> nat {
    match available {
        Some(n) => n as nat,
        None => 1,
    }
}

/// Initializes `pool` with one worker per available unit of parallelism
/// (`available`, as the host reports it), or one worker when that is unknown.
pub fn init<T>(pool: &mut Pool<T>, available: Option<usize>) -> (r: Result<(), PoolError>)
    requires
        old(pool)@.wf(),
    ensures
        r == init_with_result(old(pool)@),
        final(pool)@ == after_init_with(old(pool)@, default_jobs(available)),
        final(pool)@.wf(),
{
    let jobs: usize = match available {
        Some(n) => n,
        None => 1,
    };
    init_with(pool, jobs)
}

/// Submits `task`: it is queued at the back when the pool is initialized and
/// its queue has a receiving side. A pool without workers accepts the task and
/// never runs it. Otherwise the task is dropped and the call
/// fails with `Uninitialized` or `Disconnected`.
pub fn bg<T>(pool: &mut Pool<T>, task: T) -> (r: Result<(), PoolError>)
    requires
        old(pool)@.wf(),
    ensures
        r == bg_result(old(pool)@),
        final(pool)@ == after_bg(old(pool)@, task),
        final(pool)@.wf(),
{
    if !pool.initialized {
        return Err(PoolError::Uninitialized);
    }
    if !pool.is_receiving() {
        return Err(PoolError::Disconnected);
    }
    pool.queue.send(Item::Task(task));
    Ok(())
}

/// Asks every registered worker to stop after its current task: queues one
/// stop signal per worker and returns at once. When every worker has already
/// stopped, nothing is queued and every worker is reported as not signalled.
pub fn shutdown<T>(pool: &mut Pool<T>) -> (r: Result<Vec<usize>, PoolError>)
    requires
        old(pool)@.wf(),
    ensures
        match r {
            Ok(ids) => shutdown_result(old(pool)@) == Ok::<Seq<usize>, PoolError>(ids@),
            Err(e) => shutdown_result(old(pool)@) == Err::<Seq<usize>, PoolError>(e),
        },
        final(pool)@ == after_shutdown(old(pool)@),
        final(pool)@.wf(),
{
    if !pool.initialized {
        return Err(PoolError::Uninitialized);
    }
    let n = pool.workers.len();
    let mut unsignalled: Vec<usize> = Vec::new();
    if pool.is_receiving() {
        let ghost q0 = pool.queue@;
        let mut i: usize = 0;
        while i < n
            invariant
                i <= n,
                n == pool.workers@.len(),
                pool.workers@ == old(pool)@.workers,
                pool.initialized,
                pool.queue@ == q0 + stops::<T>(i as nat),
            decreases n - i,
        {
            pool.queue.send(Item::Stop);
            i = i + 1;
            assert(pool.queue@ =~= q0 + stops::<T>(i as nat));
        }
    } else {
        let mut i: usize = 0;
        while i < n
            invariant
                i <= n,
                n == pool.workers@.len(),
                unsignalled@ == ids_of(pool.workers@.take(i as int)),
            decreases n - i,
        {
            unsignalled.push(pool.workers[i].id);
            i = i + 1;
            assert(unsignalled@ =~= ids_of(pool.workers@.take(i as int)));
        }
        assert(pool.workers@.take(n as int) =~= pool.workers@);
    }
    Ok(unsignalled)
}

/// The worker `worker` takes the item at the front of the queue. A stop
/// signal marks it as stopped; with nothing queued it gets `Empty` and
/// nothing changes.
pub fn receive<T>(pool: &mut Pool<T>, worker: usize) -> (r: Received<T>)
    requires
        old(pool)@.wf(),
        old(pool)@.initialized(),
        worker < old(pool)@.workers.len(),
    ensures
        r == received(old(pool)@),
        final(pool)@ == after_receive(old(pool)@, worker as int),
        final(pool)@.wf(),
{
    match pool.queue.recv() {
        None => Received::Empty,
        Some(Item::Task(t)) => Received::Task(t),
        Some(Item::Stop) => {
            let mut w = pool.workers[worker];
            w.stopped = true;
            pool.workers.set(worker, w);
            Received::Stop
        },
    }
}

/// Shuts down as `shutdown` does, then takes the handle of every worker that
/// still holds one so that its thread can be joined; the ids come back in
/// registration order.
pub fn shutdown_blocking<T>(pool: &mut Pool<T>) -> (r: Result<BlockingShutdown, PoolError>)
    requires
        old(pool)@.wf(),
    ensures
        match r {
            Ok(b) => {
                &&& shutdown_result(old(pool)@) == Ok::<Seq<usize>, PoolError>(b.unsignalled@)
                &&& b.to_join@ == handle_ids(old(pool)@.workers)
                &&& final(pool)@ == after_shutdown_blocking(old(pool)@)
            },
            Err(e) => {
                &&& shutdown_result(old(pool)@) == Err::<Seq<usize>, PoolError>(e)
                &&& final(pool)@ == old(pool)@
            },
        },
        final(pool)@.wf(),
{
    let unsignalled = match shutdown(pool) {
        Ok(ids) => ids,
        Err(e) => return Err(e),
    };
    let ghost ws0 = pool.workers@;
    let ghost q0 = pool.queue@;
    let n = pool.workers.len();
    let mut to_join: Vec<usize> = Vec::new();
    let mut i: usize = 0;
    while i < n
        invariant
            i <= n,
            n == pool.workers@.len(),
            n == ws0.len(),
            pool.initialized,
            pool.queue@ == q0,
            pool.workers@ == handles_taken(ws0.take(i as int)) + ws0.skip(i as int),
            to_join@ == handle_ids(ws0.take(i as int)),
        decreases n - i,
    {
        let w = pool.workers[i];
        assert(ws0.take(i + 1).drop_last() =~= ws0.take(i as int));
        if w.has_handle {
            to_join.push(w.id);
        }
        pool.workers.set(i, Worker { id: w.id, has_handle: false, stopped: w.stopped });
        i = i + 1;
        assert(pool.workers@ =~= handles_taken(ws0.take(i as int)) + ws0.skip(i as int));
    }
    assert(ws0.take(n as int) =~= ws0);
    assert(pool.workers@ =~= handles_taken(ws0));
    Ok(BlockingShutdown { unsignalled, to_join })
}

/// The pool after submitting each of `tasks` in order.
pub open spec fn submit_all<T>(p: PoolView<T>, tasks: Seq<T>) -> PoolView<T>
    decreases tasks.len(),
{
    if tasks.len() == 0 {
        p
    } else {
        after_bg(submit_all(p, tasks.drop_last()), tasks.last())
    }
}

/// The pool after the workers `ws`, in order, each ask for one item, and what
/// each of them received.
pub open spec fn receive_all<T>(p: PoolView<T>, ws: Seq<int>) -> (PoolView<T>, Seq<Received<T>>)
    decreases ws.len(),
{
    if ws.len() == 0 {
        (p, Seq::empty())
    } else {
        let (before, got) = receive_all(p, ws.drop_last());
        (after_receive(before, ws.last()), got.push(received(before)))
    }
}

/// The queue items that `got` handed out, in order, leaving out the `Empty`
/// answers.
pub open spec fn items_of<T>(got: Seq<Received<T>>) -> Seq<Item<T>>
    decreases got.len(),
{
    if got.len() == 0 {
        Seq::empty()
    } else {
        let prev = items_of(got.drop_last());
        match got.last() {
            Received::Task(t) => prev.push(Item::Task(t)),
            Received::Stop => prev.push(Item::Stop),
            Received::Empty => prev,
        }
    }
}

/// Submissions to a consumed pool append their tasks to the queue, in order.
proof fn lemma_submit_all<T>(p: PoolView<T>, tasks: Seq<T>)
    requires
        p.wf(),
        p.initialized(),
        p.receiving(),
    ensures
        submit_all(p, tasks).wf(),
        submit_all(p, tasks).initialized(),
        submit_all(p, tasks).workers == p.workers,
        submit_all(p, tasks).queued() == p.queued() + tasks.map_values(|t: T| Item::Task(t)),
    decreases tasks.len(),
{
    if tasks.len() > 0 {
        lemma_submit_all(p, tasks.drop_last());
        let prev = submit_all(p, tasks.drop_last());
        assert(prev.receiving());
        assert(submit_all(p, tasks).queued() =~= p.queued() + tasks.map_values(
            |t: T| Item::Task(t),
        ));
    }
}

/// A run of receives hands out the front of the queue in order: what was
/// queued is what was handed out followed by what is left, one item per
/// receive while any is left. Without a stop signal among the items handed
/// out, the worker records do not change.
proof fn lemma_receive_all<T>(p: PoolView<T>, ws: Seq<int>)
    requires
        p.wf(),
        p.initialized(),
        forall|k: int| 0 <= k < ws.len() ==> 0 <= #[trigger] ws[k] < p.workers.len(),
    ensures
        ({
            let (after, got) = receive_all(p, ws);
            &&& after.wf()
            &&& after.initialized()
            &&& after.workers.len() == p.workers.len()
            &&& p.queued() == items_of(got) + after.queued()
            &&& items_of(got).len() == if ws.len() <= p.queued().len() {
                ws.len()
            } else {
                p.queued().len()
            }
            &&& !items_of(got).contains(Item::Stop) ==> after.workers == p.workers
        }),
    decreases ws.len(),
{
    if ws.len() > 0 {
        let ws0 = ws.drop_last();
        assert forall|k: int| 0 <= k < ws0.len() implies 0 <= #[trigger] ws0[k] < p.workers.len() by {
            assert(ws0[k] == ws[k]);
        }
        lemma_receive_all(p, ws0);
        let (before, got0) = receive_all(p, ws0);
        let (after, got) = receive_all(p, ws);
        assert(got0 == got.drop_last());
        let w = ws.last();
        assert(0 <= w < p.workers.len()) by {
            assert(w == ws[ws.len() - 1]);
        }
        if before.queued().len() > 0 {
            let head = before.queued()[0];
            assert(items_of(got) =~= items_of(got0).push(head));
            assert(p.queued() =~= items_of(got) + after.queued());
            if !items_of(got).contains(Item::Stop) {
                assert(items_of(got)[items_of(got).len() - 1] == head);
                assert(!items_of(got0).contains(Item::Stop)) by {
                    if items_of(got0).contains(Item::Stop) {
                        let j = choose|j: int| 0 <= j < items_of(got0).len() && items_of(got0)[j] == Item::<T>::Stop;
                        assert(items_of(got)[j] == Item::<T>::Stop);
                    }
                }
                assert(head !is Stop);
            }
        } else {
            assert(items_of(got) == items_of(got0));
        }
    }
}

/// Exactly-once delivery: while the queue has a receiving side, the tasks `tasks`
/// submitted to a pool with an empty queue are, by any run of at least as
/// many receives by any workers, handed out exactly once each and in order of
/// submission, and nothing else is handed out.
pub proof fn lemma_exactly_once<T>(p: PoolView<T>, tasks: Seq<T>, ws: Seq<int>)
    requires
        p.wf(),
        p.initialized(),
        p.receiving(),
        p.queued().len() == 0,
        ws.len() >= tasks.len(),
        forall|k: int| 0 <= k < ws.len() ==> 0 <= #[trigger] ws[k] < p.workers.len(),
    ensures
        ({
            let (after, got) = receive_all(submit_all(p, tasks), ws);
            &&& items_of(got) == tasks.map_values(|t: T| Item::Task(t))
            &&& after.queued().len() == 0
        }),
{
    lemma_submit_all(p, tasks);
    let s = submit_all(p, tasks);
    assert(s.queued() =~= tasks.map_values(|t: T| Item::Task(t)));
    lemma_receive_all(s, ws);
    let (after, got) = receive_all(s, ws);
    assert(items_of(got) =~= s.queued());
}

/// Initialization happens once: after any first `init_with`, a second one is
/// rejected with `AlreadyInitialized` and leaves the pool as the first left it.
pub proof fn lemma_init_twice<T>(p: PoolView<T>, first: usize, second: usize)
    requires
        p.wf(),
    ensures
        init_with_result(after_init_with(p, first as nat)) == Err::<(), PoolError>(
            PoolError::AlreadyInitialized,
        ),
        after_init_with(after_init_with(p, first as nat), second as nat) == after_init_with(
            p,
            first as nat,
        ),
        after_init_with(p, first as nat).wf(),
{
    let a = after_init_with(p, first as nat);
    assert forall|i: int| 0 <= i < a.workers.len() implies (#[trigger] a.workers[i]).id == i by {
        if !p.initialized() {
            assert(a.workers[i] == fresh_workers(first as nat)[i]);
        }
    }
}

/// After stop signals, one per worker, are queued behind `q` on a pool none of
/// whose workers has stopped, a run of receives that stops every worker has
/// handed out all of `q` first.
proof fn lemma_drained_before_stops<T>(p1: PoolView<T>, q: Seq<Item<T>>, ws: Seq<int>)
    requires
        p1.wf(),
        p1.initialized(),
        p1.workers.len() >= 1,
        !p1.workers[0].stopped,
        p1.queued() == q + stops::<T>(p1.workers.len()),
        !q.contains(Item::Stop),
        forall|k: int| 0 <= k < ws.len() ==> 0 <= #[trigger] ws[k] < p1.workers.len(),
    ensures
        ({
            let (after, got) = receive_all(p1, ws);
            (forall|i: int| 0 <= i < after.workers.len() ==> (#[trigger] after.workers[i]).stopped)
                ==> items_of(got).len() > q.len() && items_of(got).take(q.len() as int) == q
        }),
{
    lemma_receive_all(p1, ws);
    let (after, got) = receive_all(p1, ws);
    let d = items_of(got);
    if forall|i: int| 0 <= i < after.workers.len() ==> (#[trigger] after.workers[i]).stopped {
        assert(after.workers[0].stopped);
        assert(d.contains(Item::Stop));
        let j = choose|j: int| 0 <= j < d.len() && d[j] == Item::<T>::Stop;
        assert(p1.queued()[j] == d[j]);
        if j < q.len() {
            assert(p1.queued()[j] == q[j]);
            assert(q.contains(Item::Stop));
        }
        assert forall|i: int| 0 <= i < q.len() implies #[trigger] d[i] == q[i] by {
            assert(p1.queued()[i] == d[i]);
            assert(p1.queued()[i] == q[i]);
        }
        assert(d.take(q.len() as int) =~= q);
    }
}

/// A shutdown drains the queue: on a pool with at least one worker, none
/// stopped and no stop signal queued, once every worker has received its stop
/// signal after `shutdown` (whatever the order of receives, and whichever
/// worker takes which item), every item queued before it has been handed out.
pub proof fn lemma_shutdown_drains<T>(p: PoolView<T>, ws: Seq<int>)
    requires
        p.wf(),
        p.initialized(),
        p.workers.len() >= 1,
        forall|i: int| 0 <= i < p.workers.len() ==> !(#[trigger] p.workers[i]).stopped,
        !p.queued().contains(Item::Stop),
        forall|k: int| 0 <= k < ws.len() ==> 0 <= #[trigger] ws[k] < p.workers.len(),
    ensures
        ({
            let (after, got) = receive_all(after_shutdown(p), ws);
            (forall|i: int| 0 <= i < after.workers.len() ==> (#[trigger] after.workers[i]).stopped)
                ==> items_of(got).len() > p.queued().len() && items_of(got).take(
                p.queued().len() as int,
            ) == p.queued()
        }),
{
    assert(!p.workers[0].stopped);
    assert(p.receiving());
    lemma_drained_before_stops(after_shutdown(p), p.queued(), ws);
}

/// A blocking shutdown drains the queue: on a pool with at least one worker,
/// none stopped and no stop signal queued, once every worker has received its
/// stop signal after `shutdown_blocking` (whatever the order of receives), every
/// item queued before it has been handed out. All handles are taken, so every
/// thread is joined.
pub proof fn lemma_blocking_shutdown_drains<T>(p: PoolView<T>, ws: Seq<int>)
    requires
        p.wf(),
        p.initialized(),
        p.workers.len() >= 1,
        forall|i: int| 0 <= i < p.workers.len() ==> !(#[trigger] p.workers[i]).stopped,
        !p.queued().contains(Item::Stop),
        forall|k: int| 0 <= k < ws.len() ==> 0 <= #[trigger] ws[k] < p.workers.len(),
    ensures
        forall|i: int|
            0 <= i < p.workers.len() ==> !(#[trigger] after_shutdown_blocking(p).workers[i]).has_handle,
        ({
            let (after, got) = receive_all(after_shutdown_blocking(p), ws);
            (forall|i: int| 0 <= i < after.workers.len() ==> (#[trigger] after.workers[i]).stopped)
                ==> items_of(got).len() > p.queued().len() && items_of(got).take(
                p.queued().len() as int,
            ) == p.queued()
        }),
{
    assert(!p.workers[0].stopped);
    assert(p.receiving());
    let p1 = after_shutdown_blocking(p);
    assert(p1.workers[0] == handles_taken(p.workers)[0]);
    assert(p1.wf());
    lemma_drained_before_stops(p1, p.queued(), ws);
}

/// Shutting down twice is safe: on an initialized pool both calls succeed, the
/// worker records are untouched, the second reports only registered workers
/// as not signalled, and while the queue has a receiving side it gains one stop
/// signal per worker for each call.
pub proof fn lemma_shutdown_twice<T>(p: PoolView<T>)
    requires
        p.wf(),
        p.initialized(),
    ensures
        shutdown_result(p) is Ok,
        shutdown_result(after_shutdown(p)) is Ok,
        after_shutdown(after_shutdown(p)).wf(),
        after_shutdown(after_shutdown(p)).workers == p.workers,
        forall|k: int|
            0 <= k < shutdown_result(after_shutdown(p)).unwrap().len() ==> #[trigger] shutdown_result(
                after_shutdown(p),
            ).unwrap()[k] < p.workers.len(),
        p.receiving() ==> after_shutdown(after_shutdown(p)).queued() == p.queued() + stops::<T>(
            p.workers.len(),
        ) + stops::<T>(p.workers.len()),
{
    let s = after_shutdown(p);
    if !s.receiving() {
        assert forall|k: int| 0 <= k < ids_of(s.workers).len() implies #[trigger] ids_of(s.workers)[k] < p.workers.len() by {
            assert(s.workers[k].id == k);
        }
    }
}

} // verus!
