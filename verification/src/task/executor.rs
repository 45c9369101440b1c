//! The task executor: which task to poll next, and when to sleep.

use super::{Task, TaskId};
use crate::queue::{
    no_task_queued, pop_task, push_task, queued_tasks, task_capacity, task_queue, task_queue_full,
    QUEUE_CAPACITY,
};
use crossbeam_queue::ArrayQueue;
use std::collections::BTreeMap;
use vstd::prelude::*;

verus! {

/// What an executor looks like to its callers. Tasks and wakers are found by task number.
#[verifier::ext_equal]
#[verifier::reject_recursive_types(F)]
#[verifier::reject_recursive_types(W)]
pub struct ExecutorState<F, W> {
    /// The tasks that have not completed, but for the one that is being polled.
    pub tasks: Map<u64, Task<F>>,
    /// The tasks that were woken, in the order in which they were.
    pub ready: Seq<u64>,
    /// The wakers that were made for tasks so far.
    pub wakers: Map<u64, W>,
    /// The task that is being polled.
    pub polling: Option<u64>,
}

/// Index of the first entry of `ready` that names a task of `tasks`, or the length of `ready`.
pub open spec fn first_live<T>(tasks: Map<u64, T>, ready: Seq<u64>) -> nat
    decreases ready.len(),
{
    if ready.len() == 0 || tasks.contains_key(ready[0]) {
        0
    } else {
        1 + first_live(tasks, ready.drop_first())
    }
}

impl<F, W> ExecutorState<F, W> {
    /// The task has been spawned and has not completed.
    pub open spec fn live(self, id: u64) -> bool {
        self.tasks.contains_key(id) || self.polling == Some(id)
    }

    /// Tasks are found under their own number, wakers are kept for live tasks only, and the task
    /// being polled is not among the others.
    pub open spec fn well_formed(self) -> bool {
        &&& self.ready.len() <= QUEUE_CAPACITY
        &&& forall|id: u64| #[trigger] self.tasks.contains_key(id) ==> self.tasks[id].id@ == id
        &&& forall|id: u64| #[trigger] self.wakers.contains_key(id) ==> self.live(id)
        &&& self.polling matches Some(id) ==> !self.tasks.contains_key(id)
    }

    /// A task was added and scheduled for its first poll.
    pub open spec fn spawned(self, task: Task<F>) -> ExecutorState<F, W> {
        ExecutorState {
            tasks: self.tasks.insert(task.id@, task),
            ready: self.ready.push(task.id@),
            ..self
        }
    }

    /// A task was woken.
    pub open spec fn woken(self, id: u64) -> ExecutorState<F, W> {
        ExecutorState { ready: self.ready.push(id), ..self }
    }

    /// The task to poll next: the first that was woken and has not completed since.
    pub open spec fn next(self) -> Option<u64> {
        let k = first_live(self.tasks, self.ready);
        if k < self.ready.len() {
            Some(self.ready[k as int])
        } else {
            None
        }
    }

    /// The next task was taken off the queue, and the stale entries before it.
    pub open spec fn dequeued(self) -> ExecutorState<F, W> {
        let k = first_live(self.tasks, self.ready);
        ExecutorState {
            ready: if k < self.ready.len() {
                self.ready.skip(k as int + 1)
            } else {
                Seq::empty()
            },
            ..self
        }
    }

    /// A task was taken out to be polled.
    pub open spec fn begun(self, id: u64) -> ExecutorState<F, W> {
        ExecutorState { tasks: self.tasks.remove(id), polling: Some(id), ..self }
    }

    /// The task being polled came back: a completed one is dropped together with its waker, one
    /// that waits is kept.
    pub open spec fn finished(self, task: Task<F>, completed: bool) -> ExecutorState<F, W> {
        if completed {
            ExecutorState { wakers: self.wakers.remove(task.id@), polling: None, ..self }
        } else {
            ExecutorState { tasks: self.tasks.insert(task.id@, task), polling: None, ..self }
        }
    }

    /// How to go on with interrupts disabled: halt only if no task is scheduled.
    pub open spec fn idle_action(self) -> IdleAction {
        if self.ready.len() == 0 {
            IdleAction::EnableAndHalt
        } else {
            IdleAction::Enable
        }
    }
}

/// What is to be done next.
#[derive(Clone, Copy, Debug, PartialEq, Eq, Structural)]
pub enum ExecutorAction {
    /// Poll the task with the waker that is cached for it.
    Poll(TaskId),
    /// Make a waker for the task, cache it, and poll the task with it.
    PollWithNewWaker(TaskId),
    /// Nothing is ready: sleep, if that is still so once interrupts are disabled.
    Sleep,
}

/// How to end the section in which interrupts are disabled before sleeping.
#[derive(Clone, Copy, Debug, PartialEq, Eq, Structural)]
pub enum IdleAction {
    /// Enable interrupts and halt until the next one, without a gap between the two.
    EnableAndHalt,
    /// Enable interrupts and go on.
    Enable,
}

/// Drives tasks with futures of type `F` and wakers of type `W`.
#[verifier::reject_recursive_types(F)]
#[verifier::reject_recursive_types(W)]
pub struct Executor<F, W> {
    tasks: BTreeMap<u64, Task<F>>,
    task_queue: ArrayQueue<u64>,
    waker_cache: BTreeMap<u64, W>,
    polling: Option<u64>,
}

impl<F, W> View for Executor<F, W> {
    type V = ExecutorState<F, W>;

    closed spec fn view(&self) -> ExecutorState<F, W> {
        ExecutorState {
            tasks: self.tasks@,
            ready: queued_tasks(self.task_queue),
            wakers: self.waker_cache@,
            polling: self.polling,
        }
    }
}

impl<F, W> Executor<F, W> {
    /// The executor keeps its invariants, and its queue has the agreed size.
    pub closed spec fn well_formed(&self) -> bool {
        &&& self@.well_formed()
        &&& task_capacity(self.task_queue) == QUEUE_CAPACITY
    }

    /// What a well-formed executor looks like to its callers is well formed.
    pub proof fn lemma_well_formed(&self)
        requires
            self.well_formed(),
        ensures
            self@.well_formed(),
    {
    }

    /// An executor without tasks.
    pub fn new() -> (executor: Executor<F, W>)
        ensures
            executor.well_formed(),
            executor@ == (ExecutorState {
                tasks: Map::<u64, Task<F>>::empty(),
                ready: Seq::<u64>::empty(),
                wakers: Map::<u64, W>::empty(),
                polling: None::<u64>,
            }),
    {
        Executor {
            tasks: BTreeMap::new(),
            task_queue: task_queue(QUEUE_CAPACITY),
            waker_cache: BTreeMap::new(),
            polling: None,
        }
    }

    /// Adds a task and schedules it for its first poll.
    pub fn spawn(&mut self, task: Task<F>)
        requires
            old(self).well_formed(),
            !old(self)@.live(task.id@),
            old(self)@.ready.len() < QUEUE_CAPACITY,
        ensures
            final(self).well_formed(),
            final(self)@ == old(self)@.spawned(task),
            final(self)@.tasks == old(self)@.tasks.insert(task.id@, task),
            final(self)@.ready == old(self)@.ready.push(task.id@),
            final(self)@.wakers == old(self)@.wakers,
            final(self)@.polling == old(self)@.polling,
    {
        let id: u64 = task.id.number();
        self.tasks.insert(id, task);
        let _ = push_task(&mut self.task_queue, id);
        assert(self@ =~= old(self)@.spawned(task));
    }

    /// Schedules a task for polling, whether it has completed by then or not.
    pub fn wake_task(&mut self, id: TaskId)
        requires
            old(self).well_formed(),
            old(self)@.ready.len() < QUEUE_CAPACITY,
        ensures
            final(self).well_formed(),
            final(self)@ == old(self)@.woken(id@),
            final(self)@.ready == old(self)@.ready.push(id@),
            final(self)@.tasks == old(self)@.tasks,
            final(self)@.wakers == old(self)@.wakers,
            final(self)@.polling == old(self)@.polling,
    {
        let _ = push_task(&mut self.task_queue, id.number());
    }

    /// Whether another task can be scheduled.
    pub fn has_room(&self) -> (yes: bool)
        requires
            self.well_formed(),
        ensures
            yes == (self@.ready.len() < QUEUE_CAPACITY),
            yes == (self@.ready.len() < 100),
    {
        !task_queue_full(&self.task_queue)
    }

    /// Whether the task has been spawned and has not completed.
    pub fn is_live(&self, id: TaskId) -> (yes: bool)
        ensures
            yes == self@.live(id@),
            yes <==> self@.tasks.contains_key(id@) || self@.polling == Some(id@),
    {
        self.tasks.contains_key(&id.number()) || self.polling == Some(id.number())
    }

    /// Takes the next task to poll off the queue, skipping tasks that completed after they
    /// were woken.
    pub fn run_ready_tasks(&mut self) -> (next: Option<TaskId>)
        requires
            old(self).well_formed(),
        ensures
            final(self).well_formed(),
            final(self)@ == old(self)@.dequeued(),
            next is Some <==> old(self)@.next() is Some,
            next matches Some(id) ==> Some(id@) == old(self)@.next(),
            next matches Some(id) ==> final(self)@.tasks.contains_key(id@),
            final(self)@.tasks == old(self)@.tasks,
            final(self)@.wakers == old(self)@.wakers,
            final(self)@.polling == old(self)@.polling,
            final(self)@.ready.len() <= old(self)@.ready.len(),
            final(self)@.ready == old(self)@.ready.skip(
                old(self)@.ready.len() - final(self)@.ready.len(),
            ),
            next matches Some(id) ==> {
                let taken = old(self)@.ready.len() - final(self)@.ready.len();
                &&& 0 < taken
                &&& old(self)@.ready[taken - 1] == id@
                &&& old(self)@.tasks.contains_key(id@)
                &&& forall|i: int|
                    0 <= i < taken - 1 ==> !old(self)@.tasks.contains_key(
                        #[trigger] old(self)@.ready[i],
                    )
            },
            next is None ==> final(self)@.ready.len() == 0 && forall|i: int|
                0 <= i < old(self)@.ready.len() ==> !old(self)@.tasks.contains_key(
                    #[trigger] old(self)@.ready[i],
                ),
    {
        let ghost start = self@;
        let ghost mut skipped: int = 0;
        assert(start.ready.skip(0) =~= start.ready);
        loop
            invariant
                self.well_formed(),
                0 <= skipped <= start.ready.len(),
                self@ == (ExecutorState { ready: start.ready.skip(skipped), ..start }),
                first_live(start.tasks, start.ready) == skipped + first_live(
                    start.tasks,
                    start.ready.skip(skipped),
                ),
                start == old(self)@,
                start.well_formed(),
            decreases self@.ready.len(),
        {
            let ghost rest = start.ready.skip(skipped);
            match pop_task(&mut self.task_queue) {
                None => {
                    proof {
                        law_next_task_is_first_live(start);
                    }
                    assert(self@ =~= start.dequeued());
                    return None;
                },
                Some(id) => {
                    assert(rest.drop_first() =~= start.ready.skip(skipped + 1));
                    assert(self@.tasks == start.tasks && self@.wakers == start.wakers);
                    assert(self@.polling == start.polling);
                    if self.tasks.contains_key(&id) {
                        proof {
                            law_next_task_is_first_live(start);
                        }
                        assert(self@ =~= start.dequeued());
                        return Some(TaskId(id));
                    }
                    proof {
                        skipped = skipped + 1;
                    }
                    assert(self@ =~= (ExecutorState { ready: start.ready.skip(skipped), ..start }));
                },
            }
        }
    }

    /// Decides what to do next: poll a task that is ready, or sleep.
    pub fn run(&mut self) -> (action: ExecutorAction)
        requires
            old(self).well_formed(),
        ensures
            final(self).well_formed(),
            final(self)@ == old(self)@.dequeued(),
            match action {
                ExecutorAction::Poll(id) => {
                    &&& old(self)@.next() == Some(id@)
                    &&& final(self)@.tasks.contains_key(id@)
                    &&& old(self)@.wakers.contains_key(id@)
                },
                ExecutorAction::PollWithNewWaker(id) => {
                    &&& old(self)@.next() == Some(id@)
                    &&& final(self)@.tasks.contains_key(id@)
                    &&& !old(self)@.wakers.contains_key(id@)
                },
                ExecutorAction::Sleep => old(self)@.next() is None,
            },
            action matches ExecutorAction::Poll(id) ==> old(self)@.wakers.contains_key(id@),
            action matches ExecutorAction::PollWithNewWaker(id) ==> !old(
                self,
            )@.wakers.contains_key(id@),
            final(self)@.tasks == old(self)@.tasks,
            final(self)@.wakers == old(self)@.wakers,
            final(self)@.polling == old(self)@.polling,
            final(self)@.ready.len() <= old(self)@.ready.len(),
            final(self)@.ready == old(self)@.ready.skip(
                old(self)@.ready.len() - final(self)@.ready.len(),
            ),
            action matches ExecutorAction::Poll(id) ==> {
                let taken = old(self)@.ready.len() - final(self)@.ready.len();
                &&& 0 < taken
                &&& old(self)@.ready[taken - 1] == id@
                &&& old(self)@.tasks.contains_key(id@)
                &&& forall|i: int|
                    0 <= i < taken - 1 ==> !old(self)@.tasks.contains_key(
                        #[trigger] old(self)@.ready[i],
                    )
            },
            action matches ExecutorAction::PollWithNewWaker(id) ==> {
                let taken = old(self)@.ready.len() - final(self)@.ready.len();
                &&& 0 < taken
                &&& old(self)@.ready[taken - 1] == id@
                &&& old(self)@.tasks.contains_key(id@)
                &&& forall|i: int|
                    0 <= i < taken - 1 ==> !old(self)@.tasks.contains_key(
                        #[trigger] old(self)@.ready[i],
                    )
            },
            action is Sleep ==> final(self)@.ready.len() == 0 && forall|i: int|
                0 <= i < old(self)@.ready.len() ==> !old(self)@.tasks.contains_key(
                    #[trigger] old(self)@.ready[i],
                ),
    {
        match self.run_ready_tasks() {
            Some(id) => if self.waker_cache.contains_key(&id.number()) {
                ExecutorAction::Poll(id)
            } else {
                ExecutorAction::PollWithNewWaker(id)
            },
            None => ExecutorAction::Sleep,
        }
    }

    /// Keeps a waker for the later polls of a task.
    pub fn cache_waker(&mut self, id: TaskId, waker: W)
        requires
            old(self).well_formed(),
            old(self)@.live(id@),
        ensures
            final(self).well_formed(),
            final(self)@ == (ExecutorState {
                wakers: old(self)@.wakers.insert(id@, waker),
                ..old(self)@
            }),
    {
        self.waker_cache.insert(id.number(), waker);
        assert(self@ =~= (ExecutorState {
            wakers: old(self)@.wakers.insert(id@, waker),
            ..old(self)@
        }));
    }

    /// The waker that is cached for a task.
    pub fn cached_waker(&self, id: TaskId) -> (waker: Option<&W>)
        ensures
            waker is Some <==> self@.wakers.contains_key(id@),
            waker matches Some(w) ==> *w == self@.wakers[id@],
    {
        self.waker_cache.get(&id.number())
    }

    /// Takes a task out to be polled.
    pub fn begin_poll(&mut self, id: TaskId) -> (task: Task<F>)
        requires
            old(self).well_formed(),
            old(self)@.polling is None,
            old(self)@.tasks.contains_key(id@),
        ensures
            final(self).well_formed(),
            final(self)@ == old(self)@.begun(id@),
            final(self)@.tasks == old(self)@.tasks.remove(id@),
            final(self)@.polling == Some(id@),
            final(self)@.ready == old(self)@.ready,
            final(self)@.wakers == old(self)@.wakers,
            task == old(self)@.tasks[id@],
            task.id@ == id@,
    {
        let task = self.tasks.remove(&id.number()).unwrap();
        self.polling = Some(id.number());
        assert(self@ =~= old(self)@.begun(id@));
        task
    }

    /// Takes note of how a poll ended.
    pub fn finish_poll(&mut self, task: Task<F>, completed: bool)
        requires
            old(self).well_formed(),
            old(self)@.polling == Some(task.id@),
        ensures
            final(self).well_formed(),
            final(self)@ == old(self)@.finished(task, completed),
            final(self)@.polling is None,
            final(self)@.ready == old(self)@.ready,
            completed ==> final(self)@.tasks == old(self)@.tasks,
            completed ==> final(self)@.wakers == old(self)@.wakers.remove(task.id@),
            !completed ==> final(self)@.tasks == old(self)@.tasks.insert(task.id@, task),
            !completed ==> final(self)@.wakers == old(self)@.wakers,
    {
        let id: u64 = task.id.number();
        if completed {
            self.waker_cache.remove(&id);
        } else {
            self.tasks.insert(id, task);
        }
        self.polling = None;
        assert(self@ =~= old(self)@.finished(task, completed));
    }

    /// Decides, with interrupts disabled, whether to halt the processor.
    pub fn sleep_if_idle(&self) -> (action: IdleAction)
        ensures
            action == self@.idle_action(),
            self@.ready.len() == 0 ==> action == IdleAction::EnableAndHalt,
            self@.ready.len() > 0 ==> action == IdleAction::Enable,
    {
        if no_task_queued(&self.task_queue) {
            IdleAction::EnableAndHalt
        } else {
            IdleAction::Enable
        }
    }
}

/// What precedes the first live entry is stale, and the first live entry is live.
proof fn lemma_first_live<T>(tasks: Map<u64, T>, ready: Seq<u64>)
    ensures
        first_live(tasks, ready) <= ready.len(),
        first_live(tasks, ready) < ready.len() ==> tasks.contains_key(
            ready[first_live(tasks, ready) as int],
        ),
        forall|i: int|
            0 <= i < first_live(tasks, ready) ==> !tasks.contains_key(#[trigger] ready[i]),
    decreases ready.len(),
{
    if ready.len() > 0 && !tasks.contains_key(ready[0]) {
        let rest = ready.drop_first();
        lemma_first_live(tasks, rest);
        assert forall|i: int| 0 <= i < first_live(tasks, ready) implies !tasks.contains_key(
            #[trigger] ready[i],
        ) by {
            if i > 0 {
                assert(ready[i] == rest[i - 1]);
            }
        }
    }
}

/// Only tasks that were woken and have not completed are polled, in the order in which they were
/// woken: everything woken before the next task has completed.
pub proof fn law_next_task_is_live<F, W>(state: ExecutorState<F, W>)
    ensures
        state.next() matches Some(id) ==> state.tasks.contains_key(id),
        state.next() matches Some(id) ==> exists|k: int|
            {
                &&& 0 <= k < state.ready.len()
                &&& #[trigger] state.ready[k] == id
                &&& state.dequeued().ready == state.ready.skip(k + 1)
                &&& forall|i: int| 0 <= i < k ==> !state.tasks.contains_key(#[trigger] state.ready[i])
            },
{
    lemma_first_live(state.tasks, state.ready);
    let k = first_live(state.tasks, state.ready) as int;
    if k < state.ready.len() {
        assert(state.ready[k] == state.next()->0);
    }
}

/// The task to poll next is the first in the queue that has not completed. It and what stands
/// before it leave the queue, and nothing else changes. Without such a task the queue is emptied.
pub proof fn law_next_task_is_first_live<F, W>(state: ExecutorState<F, W>)
    ensures
        state.dequeued().tasks == state.tasks,
        state.dequeued().wakers == state.wakers,
        state.dequeued().polling == state.polling,
        state.dequeued().ready.len() <= state.ready.len(),
        state.dequeued().ready == state.ready.skip(
            state.ready.len() - state.dequeued().ready.len(),
        ),
        state.next() matches Some(id) ==> {
            let taken = state.ready.len() - state.dequeued().ready.len();
            &&& 0 < taken
            &&& state.ready[taken - 1] == id
            &&& state.tasks.contains_key(id)
            &&& forall|i: int|
                0 <= i < taken - 1 ==> !state.tasks.contains_key(#[trigger] state.ready[i])
        },
        state.next() is None ==> state.dequeued().ready.len() == 0 && forall|i: int|
            0 <= i < state.ready.len() ==> !state.tasks.contains_key(#[trigger] state.ready[i]),
{
    lemma_first_live(state.tasks, state.ready);
    assert(state.ready.skip(state.ready.len() as int) =~= Seq::empty());
}

/// Every wake-up is queued, whatever the executor is doing at the time: the task stands at the end
/// of the queue, and nothing else changes.
pub proof fn law_every_wakeup_is_queued<F, W>(state: ExecutorState<F, W>, id: u64)
    ensures
        state.woken(id).ready.len() == state.ready.len() + 1,
        state.woken(id).ready.contains(id),
        state.woken(id).ready.last() == id,
        state.woken(id).ready.take(state.ready.len() as int) == state.ready,
        state.woken(id).tasks == state.tasks,
        state.woken(id).wakers == state.wakers,
        state.woken(id).polling == state.polling,
{
    let ready = state.woken(id).ready;
    assert(ready.take(state.ready.len() as int) =~= state.ready);
    assert(ready[ready.len() - 1] == id);
}

/// The state after a task was taken off the queue `n` times.
pub open spec fn after_runs<F, W>(state: ExecutorState<F, W>, n: nat) -> ExecutorState<F, W>
    decreases n,
{
    if n == 0 {
        state
    } else {
        after_runs(state.dequeued(), (n - 1) as nat)
    }
}

/// A queued live task is reached before the queue has been gone through up to its place.
proof fn lemma_queued_task_is_reached<F, W>(state: ExecutorState<F, W>, k: int) -> (n: nat)
    requires
        0 <= k < state.ready.len(),
        state.tasks.contains_key(state.ready[k]),
    ensures
        n <= k,
        after_runs(state, n).next() == Some(state.ready[k]),
    decreases k,
{
    let place = law_woken_task_is_reached(state, k);
    if state.next() == Some(state.ready[k]) {
        0
    } else {
        let m = lemma_queued_task_is_reached(state.dequeued(), place);
        m + 1
    }
}

/// A live task that is woken is polled again, after no more polls than there were entries in the
/// queue when it was woken.
pub proof fn law_woken_task_is_polled_again<F, W>(state: ExecutorState<F, W>, id: u64) -> (n: nat)
    requires
        state.tasks.contains_key(id),
    ensures
        n <= state.ready.len(),
        after_runs(state.woken(id), n).next() == Some(id),
{
    law_every_wakeup_is_queued(state, id);
    lemma_queued_task_is_reached(state.woken(id), state.ready.len() as int)
}

/// No wake-up is lost: a live task that was woken is either the next to be polled or stays
/// queued, with fewer tasks before it. In particular the executor does not sleep.
pub proof fn law_woken_task_is_reached<F, W>(state: ExecutorState<F, W>, k: int) -> (place: int)
    requires
        0 <= k < state.ready.len(),
        state.tasks.contains_key(state.ready[k]),
    ensures
        state.next() is Some,
        state.next() == Some(state.ready[k]) || {
            &&& 0 <= place < k
            &&& place < state.dequeued().ready.len()
            &&& state.dequeued().ready[place] == state.ready[k]
        },
{
    lemma_first_live(state.tasks, state.ready);
    let m = first_live(state.tasks, state.ready) as int;
    if m < k {
        assert(state.dequeued().ready[k - m - 1] == state.ready[k]);
    }
    k - m - 1
}

/// A live task that was woken keeps its place in the queue, whatever happens to other tasks
/// before its turn comes.
pub proof fn law_woken_task_keeps_its_place<F, W>(
    state: ExecutorState<F, W>,
    k: int,
    task: Task<F>,
    other: u64,
    completed: bool,
)
    requires
        0 <= k < state.ready.len(),
        state.tasks.contains_key(state.ready[k]),
    ensures
        state.spawned(task).ready[k] == state.ready[k],
        state.spawned(task).tasks.contains_key(state.ready[k]),
        state.woken(other).ready[k] == state.ready[k],
        state.woken(other).tasks.contains_key(state.ready[k]),
        state.begun(other).ready == state.ready,
        other != state.ready[k] ==> state.begun(other).tasks.contains_key(state.ready[k]),
        state.finished(task, completed).ready == state.ready,
        state.finished(task, completed).tasks.contains_key(state.ready[k]),
{
}

/// The processor is not halted over a wake-up that comes in after the executor found nothing to
/// poll: nothing is scheduled then but what was woken since.
pub proof fn law_wakeup_before_the_halt_prevents_it<F, W>(state: ExecutorState<F, W>, id: u64)
    requires
        state.next() is None,
    ensures
        state.dequeued().idle_action() == IdleAction::EnableAndHalt,
        state.dequeued().woken(id).idle_action() == IdleAction::Enable,
        state.tasks.contains_key(id) ==> state.dequeued().woken(id).next() == Some(id),
{
    let after = state.dequeued().woken(id);
    assert(after.ready =~= seq![id]);
    if state.tasks.contains_key(id) {
        assert(first_live(after.tasks, after.ready) == 0);
    }
}

/// A spawned task is scheduled at once.
pub proof fn law_spawned_task_is_scheduled<F, W>(state: ExecutorState<F, W>, task: Task<F>)
    ensures
        state.spawned(task).live(task.id@),
        state.spawned(task).ready.last() == task.id@,
        state.spawned(task).next() is Some,
{
    let after = state.spawned(task);
    let place = law_woken_task_is_reached(after, after.ready.len() - 1);
}

/// A completed task is gone: it is not live, has no waker, and is not polled however often it is
/// woken from then on.
pub proof fn law_completed_task_is_gone<F, W>(
    state: ExecutorState<F, W>,
    task: Task<F>,
    later: ExecutorState<F, W>,
)
    requires
        state.well_formed(),
        state.polling == Some(task.id@),
        later.tasks == state.finished(task, true).tasks,
    ensures
        !state.finished(task, true).live(task.id@),
        !state.finished(task, true).wakers.contains_key(task.id@),
        later.next() != Some(task.id@),
{
    law_next_task_is_live(later);
}

/// A waker is made once for a task: it stays cached until the task completes.
pub proof fn law_wakers_are_kept<F, W>(
    state: ExecutorState<F, W>,
    id: u64,
    task: Task<F>,
    other: u64,
    completed: bool,
)
    requires
        state.wakers.contains_key(id),
        !(completed && task.id@ == id),
    ensures
        state.spawned(task).wakers == state.wakers,
        state.woken(other).wakers == state.wakers,
        state.dequeued().wakers == state.wakers,
        state.begun(other).wakers == state.wakers,
        state.finished(task, completed).wakers.contains_key(id),
        state.finished(task, completed).wakers[id] == state.wakers[id],
{
}

/// Polling a task that goes on waiting changes nothing but the task itself.
pub proof fn law_pending_poll_keeps_the_rest<F, W>(
    state: ExecutorState<F, W>,
    id: u64,
    polled: Task<F>,
)
    requires
        state.well_formed(),
        state.polling is None,
        state.tasks.contains_key(id),
        polled.id@ == id,
    ensures
        state.begun(id).finished(polled, false) == (ExecutorState {
            tasks: state.tasks.insert(id, polled),
            ..state
        }),
        polled == state.tasks[id] ==> state.begun(id).finished(polled, false) == state,
{
    let after = state.begun(id).finished(polled, false);
    assert(after =~= (ExecutorState { tasks: state.tasks.insert(id, polled), ..state }));
    if polled == state.tasks[id] {
        assert(after =~= state);
    }
}

} // verus!
