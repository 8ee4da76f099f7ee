//! The multi-task scheduler: many tasks sharing one reactor.
use vstd::prelude::*;
use crate::again::{earliest, Again};
use crate::reactor::Poll;
use crate::task::{is_ready, timeout_for, FutureResult, Task};

verus! {

/// Whether a pass would resume `t`: a known value is always handed out.
pub open spec fn task_ready<R>(t: Task<R>, poll: Poll) -> bool {
    match t {
        Task::Immediate { .. } => true,
        Task::Later { f: _, a } => is_ready(a, poll),
    }
}

/// A pass may finish `t` with value `v`: a known value is handed out as
/// it is, and a suspended computation finishes only when resumed.
pub open spec fn finished<R>(t: Task<R>, v: R, poll: Poll) -> bool {
    match t {
        Task::Immediate { r } => r == Some(v),
        Task::Later { f: _, a } => is_ready(a, poll),
    }
}

/// A pass may keep `t` as `t1`: resumed, it holds the computation's new
/// descriptor; not ready, it is kept as it was.
pub open spec fn continued<R>(t: Task<R>, t1: Task<R>, poll: Poll) -> bool {
    match t {
        Task::Immediate { .. } => false,
        Task::Later { f: _, a } => if is_ready(a, poll) {
            t1 is Later
        } else {
            t1 == t
        },
    }
}

/// One pass over `tasks` against the cycle of `poll` leaves `kept` and hands
/// out `values`: each task, in order, either finishes, its value joining
/// `values`, or stays, joining `kept`.
pub open spec fn pass<R>(tasks: Seq<Task<R>>, kept: Seq<Task<R>>, values: Seq<R>, poll: Poll) -> bool
    decreases tasks.len(),
{
    if tasks.len() == 0 {
        kept.len() == 0 && values.len() == 0
    } else {
        ||| values.len() > 0 && finished(tasks.last(), values.last(), poll) && pass(
            tasks.drop_last(),
            kept,
            values.drop_last(),
            poll,
        )
        ||| kept.len() > 0 && continued(tasks.last(), kept.last(), poll) && pass(
            tasks.drop_last(),
            kept.drop_last(),
            values,
            poll,
        )
    }
}

/// The deadline a task contributes to the shared timeout: a known value is
/// due at once.
pub open spec fn task_deadline<R>(t: Task<R>) -> Option<u64> {
    match t {
        Task::Immediate { .. } => Some(0),
        Task::Later { f: _, a } => a.deadline,
    }
}

/// The earliest deadline over a sequence of tasks.
pub open spec fn min_deadline<R>(s: Seq<Task<R>>) -> Option<u64>
    decreases s.len(),
{
    if s.len() == 0 {
        None
    } else {
        earliest(min_deadline(s.drop_last()), task_deadline(s.last()))
    }
}

/// Many live tasks sharing one reactor. Each pass offers every task one
/// poll; a single poll cycle then serves all of them.
#[verifier::reject_recursive_types(R)]
pub struct Executor<R> {
    poll: Poll,
    tasks: Vec<Task<R>>,
}

impl<R> Executor<R> {
    /// The live tasks, in the order they were added.
    pub closed spec fn tasks(self) -> Seq<Task<R>> {
        self.tasks@
    }

    /// The shared reactor.
    pub closed spec fn reactor(self) -> Poll {
        self.poll
    }

    /// No live task has handed out its value already.
    pub open spec fn wf(self) -> bool {
        forall|i: int| 0 <= i < self.tasks().len() ==> !(#[trigger] self.tasks()[i]).is_spent()
    }

    /// An executor with no task, driving `poll`.
    pub fn new(poll: Poll) -> (r: Executor<R>)
        ensures
            r.wf(),
            r.tasks().len() == 0,
            r.reactor() == poll,
    {
        Executor { poll, tasks: Vec::new() }
    }

    /// The number of live tasks.
    pub fn len(&self) -> (r: usize)
        ensures
            r == self.tasks().len(),
    {
        self.tasks.len()
    }

    /// Whether no task is live.
    pub fn is_empty(&self) -> (r: bool)
        ensures
            r == (self.tasks().len() == 0),
    {
        self.tasks.len() == 0
    }

    /// Adds `task`. One that has handed out its value already has nothing
    /// left to run and is dropped.
    pub fn add(&mut self, task: Task<R>)
        requires
            old(self).wf(),
        ensures
            final(self).wf(),
            final(self).reactor() == old(self).reactor(),
            task.is_spent() ==> final(self).tasks() == old(self).tasks(),
            !task.is_spent() ==> final(self).tasks() == old(self).tasks().push(task),
    {
        if !task.spent() {
            self.tasks.push(task);
            assert forall|i: int| 0 <= i < self.tasks().len() implies !(
            #[trigger] self.tasks()[i]).is_spent() by {
                if i < old(self).tasks().len() {
                    assert(self.tasks()[i] == old(self).tasks()[i]);
                }
            }
        }
    }

    /// Builds a task by handing `factory` the shared reactor, and adds it.
    pub fn with<F: FnOnce(&mut Poll) -> Task<R>>(&mut self, factory: F)
        requires
            old(self).wf(),
            forall|p: &mut Poll| factory.requires((p,)),
        ensures
            final(self).wf(),
            exists|q: &mut Poll, t: Task<R>|
                factory.ensures((q,), t) && (t.is_spent() ==> final(self).tasks() == old(
                    self,
                ).tasks()) && (!t.is_spent() ==> final(self).tasks() == old(self).tasks().push(t)),
    {
        let ghost before = self.tasks@;
        let task = factory(&mut self.poll);
        assert forall|i: int| 0 <= i < self.tasks().len() implies !(
        #[trigger] self.tasks()[i]).is_spent() by {
            assert(self.tasks()[i] == old(self).tasks()[i]);
        }
        self.add(task);
    }

    /// The earliest deadline over the live tasks.
    pub fn next_deadline(&self) -> (r: Option<u64>)
        ensures
            r == min_deadline(self.tasks()),
    {
        let mut best: Option<u64> = None;
        let mut i: usize = 0;
        while i < self.tasks.len()
            invariant
                i <= self.tasks@.len(),
                best == min_deadline(self.tasks@.subrange(0, i as int)),
            decreases self.tasks@.len() - i,
        {
            let d = match &self.tasks[i] {
                Task::Immediate { .. } => Some(0),
                Task::Later { f: _, a } => a.deadline,
            };
            best = match (best, d) {
                (Some(x), Some(y)) => Some(if x <= y { x } else { y }),
                (Some(x), None) => Some(x),
                (None, _) => d,
            };
            proof {
                let s = self.tasks@.subrange(0, i + 1);
                assert(s.drop_last() =~= self.tasks@.subrange(0, i as int));
            }
            i = i + 1;
        }
        assert(self.tasks@.subrange(0, i as int) =~= self.tasks@);
        best
    }

    /// One poll cycle for all live tasks: blocks until a registered source
    /// is ready or the earliest deadline comes (the shortest wait once it
    /// has passed; without limit when no task has a deadline).
    pub fn wait(&mut self) -> (r: Result<(), std::io::Error>)
        ensures
            final(self).tasks() == old(self).tasks(),
            final(self).reactor().next_id() == old(self).reactor().next_id(),
            final(self).reactor().now_ms() >= old(self).reactor().now_ms(),
    {
        let d = self.next_deadline();
        let timeout = timeout_for(d, self.poll.time());
        self.poll.poll_once(timeout)
    }

    /// One scheduling pass: polls every live task once, in order. The
    /// values of the tasks that finish are returned in that order and those
    /// tasks leave; the others stay. A task that the last poll cycle does
    /// not make ready stays as it was.
    pub fn activate(&mut self) -> (r: Vec<R>)
        requires
            old(self).wf(),
        ensures
            final(self).wf(),
            pass(old(self).tasks(), final(self).tasks(), r@, old(self).reactor()),
            final(self).tasks().len() + r@.len() == old(self).tasks().len(),
            final(self).reactor().next_id() >= old(self).reactor().next_id(),
            final(self).reactor().now_ms() == old(self).reactor().now_ms(),
            final(self).reactor().fired() == old(self).reactor().fired(),
            forall|i: int|
                0 <= i < old(self).tasks().len() && !task_ready(
                    #[trigger] old(self).tasks()[i],
                    old(self).reactor(),
                ) ==> final(self).tasks().contains(old(self).tasks()[i]),
            (forall|i: int|
                0 <= i < old(self).tasks().len() ==> !task_ready(
                    #[trigger] old(self).tasks()[i],
                    old(self).reactor(),
                )) ==> final(self).tasks() == old(self).tasks() && r@.len() == 0,
            old(self).tasks().len() == 0 ==> final(self).tasks().len() == 0
                && final(self).reactor() == old(self).reactor(),
    {
        let ghost orig = self.tasks@;
        let ghost p0 = self.poll;
        let mut pending: Vec<Task<R>> = Vec::new();
        std::mem::swap(&mut pending, &mut self.tasks);
        let mut done: Vec<R> = Vec::new();
        let ghost mut i: int = 0;
        while pending.len() > 0
            invariant
                0 <= i <= orig.len(),
                pending@ == orig.subrange(i, orig.len() as int),
                self.tasks@.len() + done@.len() == i,
                forall|k: int| 0 <= k < orig.len() ==> !(#[trigger] orig[k]).is_spent(),
                forall|k: int| 0 <= k < self.tasks@.len() ==> !(#[trigger] self.tasks@[k]).is_spent(),
                self.poll.next_id() >= p0.next_id(),
                self.poll.now_ms() == p0.now_ms(),
                self.poll.fired() == p0.fired(),
                orig.len() == 0 ==> self.poll == p0,
                pass(orig.subrange(0, i), self.tasks@, done@, p0),
                forall|k: int|
                    0 <= k < i && !task_ready(#[trigger] orig[k], p0) ==> self.tasks@.contains(
                        orig[k],
                    ),
                (forall|k: int| 0 <= k < i ==> !task_ready(#[trigger] orig[k], p0))
                    ==> self.tasks@ == orig.subrange(0, i) && done@.len() == 0,
            decreases pending@.len(),
        {
            let mut t = pending.remove(0);
            assert(t == orig[i]);
            let ghost before = self.tasks@;
            let ghost done_before = done@;
            let ghost p_mid = self.poll;
            let ghost t0 = t;
            match t.poll(&mut self.poll) {
                FutureResult::Done(v) => {
                    done.push(v);
                },
                FutureResult::Again(_) => {
                    self.tasks.push(t);
                },
            }
            proof {
                let s = orig.subrange(0, i + 1);
                assert(s.drop_last() =~= orig.subrange(0, i));
                assert(s.last() == t0);
                if self.tasks@.len() > before.len() {
                    assert(self.tasks@.drop_last() =~= before);
                    assert(done@ == done_before);
                } else {
                    assert(done@.drop_last() =~= done_before);
                    assert(self.tasks@ == before);
                }
                assert forall|k: int|
                    0 <= k < i + 1 && !task_ready(#[trigger] orig[k], p0) implies self.tasks@.contains(
                    orig[k],
                ) by {
                    if k < i {
                        let w = choose|w: int| 0 <= w < before.len() && before[w] == orig[k];
                        assert(self.tasks@[w] == orig[k]);
                    } else {
                        assert(self.tasks@[self.tasks@.len() - 1] == orig[k]);
                    }
                }
                if forall|k: int| 0 <= k < i + 1 ==> !task_ready(#[trigger] orig[k], p0) {
                    assert(self.tasks@ =~= orig.subrange(0, i + 1));
                }
                i = i + 1;
            }
        }
        proof {
            assert(orig.subrange(0, i) =~= orig);
        }
        done
    }
}

/// Timers come due in the order of their deadlines: when a cycle makes the
/// timer with the later deadline ready, it makes the earlier one ready too,
/// and a timer once due stays due in every later cycle, whose clock never
/// goes back.
pub proof fn lemma_timers_fire_in_order(ai: Again, aj: Again, p: Poll, q: Poll)
    requires
        ai.deadline is Some,
        aj.deadline is Some,
        aj.tokens@.len() == 0,
        ai.deadline->Some_0 <= aj.deadline->Some_0,
        is_ready(aj, p),
        q.now_ms() >= p.now_ms(),
    ensures
        is_ready(ai, p),
        is_ready(ai, q),
        is_ready(aj, q),
{
}

} // verus!
