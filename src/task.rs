//! Resumable computations and the single-task driver.
use vstd::prelude::*;
use crate::again::{Again, Token};
use crate::reactor::Poll;

verus! {

/// What one resume of a computation gives: its final value, or the
/// descriptor it waits on before the next resume.
pub enum FutureResult<F> {
    Done(F),
    Again(Again),
}

/// A computation that can be resumed.
///
/// A resume may register sources and build descriptors, but it never runs a
/// poll cycle: the cycle state of the reactor is left as it was.
pub trait Future<R> {
    fn poll(&mut self, poll: &mut Poll) -> (r: FutureResult<R>)
        ensures
            final(poll).next_id() >= old(poll).next_id(),
            final(poll).now_ms() == old(poll).now_ms(),
            final(poll).fired() == old(poll).fired(),
    ;
}

/// Whether a computation waiting on `a` is to be resumed, given what the
/// last poll cycle of `poll` reported: its deadline has passed, or one of
/// its tokens is active.
pub open spec fn is_ready(a: Again, poll: Poll) -> bool {
    ||| (a.deadline is Some && a.deadline->Some_0 <= poll.now_ms())
    ||| exists|i: int| 0 <= i < a.tokens@.len() && poll.active(#[trigger] a.tokens@[i].id)
}

/// Why a blocking driver stopped without a value.
#[derive(Debug)]
pub enum RunError {
    /// The task waits on no token and has no deadline: nothing could ever
    /// wake it.
    Configuration,
    /// The multiplexer failed a poll cycle.
    Io(std::io::Error),
}

/// The shortest wait a driver blocks for once a deadline has passed, so
/// that it never spins with a zero timeout.
pub const MIN_TIMEOUT_MS: u64 = 1;

/// The timeout of the next poll cycle, relative to the clock reading `now`.
pub open spec fn timeout_spec(deadline: Option<u64>, now: u64) -> Option<u64> {
    match deadline {
        None => None,
        Some(d) => if now >= d {
            Some(MIN_TIMEOUT_MS)
        } else {
            Some((d - now) as u64)
        },
    }
}

/// The timeout of the next poll cycle: none without a deadline, the time
/// left until it otherwise, and the shortest wait once it has passed.
pub fn timeout_for(deadline: Option<u64>, now: u64) -> (r: Option<u64>)
    ensures
        r == timeout_spec(deadline, now),
{
    match deadline {
        None => None,
        Some(d) => if now >= d {
            Some(MIN_TIMEOUT_MS)
        } else {
            Some(d - now)
        },
    }
}

/// What one poll of task `t0` against reactor `p0` may give: the result
/// `r`, the task `t1` and the reactor `p1` afterwards.
pub open spec fn polled<R>(t0: Task<R>, t1: Task<R>, p0: Poll, p1: Poll, r: FutureResult<R>) -> bool {
    match t0 {
        Task::Immediate { r: v } => {
            &&& r == FutureResult::<R>::Done(v->Some_0)
            &&& t1.is_spent()
            &&& p1 == p0
        },
        Task::Later { f: _, a } => if is_ready(a, p0) {
            match r {
                FutureResult::Done(_) => t1.is_spent(),
                FutureResult::Again(a2) => t1 matches Task::Later { f: _, a: a3 } && a3@ == a2@,
            }
        } else {
            &&& r is Again
            &&& r->Again_0@ == a@
            &&& t1 == t0
            &&& p1 == p0
        },
    }
}

/// What storing the result `fr` of one resume does to the suspended task
/// `t0`: a final value is handed out and the task is spent; a new
/// descriptor replaces the stored one, the computation is kept, and the
/// descriptor is handed out.
pub open spec fn settled<R>(t0: Task<R>, fr: FutureResult<R>, t1: Task<R>, r: FutureResult<R>) -> bool {
    match fr {
        FutureResult::Done(_) => r == fr && t1.is_spent(),
        FutureResult::Again(a2) => {
            &&& r is Again
            &&& r->Again_0@ == a2@
            &&& t1 is Later
            &&& t1->Later_a@ == a2@
            &&& t1->Later_f == t0->Later_f
        },
    }
}

/// A task: a suspended computation with the descriptor it waits on, or a
/// value already computed (`None` once it has been handed out).
#[verifier::reject_recursive_types(R)]
pub enum Task<R> {
    Later { f: Box<dyn Future<R>>, a: Again },
    Immediate { r: Option<R> },
}

impl<R> Task<R> {
    /// The task has handed out its value and must not be polled again.
    pub open spec fn is_spent(self) -> bool {
        self matches Task::Immediate { r: None }
    }

    /// The task is suspended on a descriptor that nothing can ever wake.
    pub open spec fn is_stuck(self) -> bool {
        match self {
            Task::Later { f: _, a } => a.is_inert(),
            Task::Immediate { .. } => false,
        }
    }

    /// A task built from a computation and the descriptor it first waits on.
    pub fn new(f: Box<dyn Future<R>>, a: Again) -> (r: Task<R>)
        ensures
            r == (Task::Later { f, a }),
    {
        Task::Later { f, a }
    }

    /// A task whose value is already known.
    pub fn immediate(t: R) -> (r: Task<R>)
        ensures
            r == (Task::Immediate { r: Some(t) }),
    {
        Task::Immediate { r: Some(t) }
    }

    /// Makes the task due at once: the reactor's clock is read into the
    /// current cycle and becomes the task's deadline, so the next poll
    /// resumes it.
    pub fn wakeup_now(&mut self, poll: &mut Poll)
        ensures
            final(poll).next_id() == old(poll).next_id(),
            final(poll).fired() == old(poll).fired(),
            final(poll).now_ms() >= old(poll).now_ms(),
            match *old(self) {
                Task::Later { f, a } => {
                    &&& *final(self) is Later
                    &&& final(self)->Later_f == old(self)->Later_f
                    &&& final(self)->Later_a.tokens@ == a.tokens@
                    &&& final(self)->Later_a.deadline == Some(final(poll).now_ms())
                    &&& is_ready(final(self)->Later_a, *final(poll))
                },
                Task::Immediate { .. } => *final(self) == *old(self) && *final(poll) == *old(poll),
            },
    {
        match self {
            Task::Later { f: _, a } => {
                poll.tick();
                let t = poll.time_of_cycle();
                a.deadline = Some(t);
            },
            Task::Immediate { .. } => {},
        }
    }

    /// Whether the task has handed out its value.
    pub fn spent(&self) -> (r: bool)
        ensures
            r == self.is_spent(),
    {
        match self {
            Task::Immediate { r } => r.is_none(),
            Task::Later { .. } => false,
        }
    }

    /// Blocks for one poll cycle on what the task waits for. A value already
    /// known needs no wait; a descriptor with neither token nor deadline is
    /// refused before blocking.
    pub fn wait(&self, poll: &mut Poll) -> (r: Result<(), RunError>)
        ensures
            final(poll).next_id() == old(poll).next_id(),
            final(poll).now_ms() >= old(poll).now_ms(),
            self.is_stuck() <==> (r matches Err(RunError::Configuration)),
            self.is_stuck() ==> *final(poll) == *old(poll),
            self is Immediate ==> r is Ok && *final(poll) == *old(poll),
    {
        match self {
            Task::Immediate { .. } => Ok(()),
            Task::Later { f: _, a } => {
                if a.tokens.len() == 0 && a.deadline.is_none() {
                    return Err(RunError::Configuration);
                }
                let timeout = timeout_for(a.deadline, poll.time());
                match poll.poll_once(timeout) {
                    Ok(()) => Ok(()),
                    Err(e) => Err(RunError::Io(e)),
                }
            },
        }
    }

    /// One round of the blocking driver: hands out a value already known;
    /// otherwise blocks for one poll cycle and polls the task once. `None`
    /// means the task is still suspended.
    pub fn step(&mut self, poll: &mut Poll) -> (r: Result<Option<R>, RunError>)
        requires
            !old(self).is_spent(),
        ensures
            final(poll).next_id() >= old(poll).next_id(),
            match *old(self) {
                Task::Immediate { r: v } => {
                    &&& r == Ok::<Option<R>, RunError>(v)
                    &&& final(self).is_spent()
                    &&& *final(poll) == *old(poll)
                },
                Task::Later { f: _, a } => if a.is_inert() {
                    &&& r matches Err(RunError::Configuration)
                    &&& *final(self) == *old(self)
                    &&& *final(poll) == *old(poll)
                } else {
                    &&& !(r matches Err(RunError::Configuration))
                    &&& (r matches Ok(Some(_))) <==> final(self).is_spent()
                    &&& r is Err ==> *final(self) == *old(self)
                },
            },
    {
        if let Task::Immediate { r } = self {
            return Ok(r.take());
        }
        match self.wait(poll) {
            Ok(()) => {},
            Err(e) => return Err(e),
        }
        match self.poll(poll) {
            FutureResult::Done(v) => Ok(Some(v)),
            FutureResult::Again(_) => Ok(None),
        }
    }

    /// Stores what one resume of the computation gave, `fr`, and hands out
    /// the task's result: the computation's value, or the descriptor it now
    /// waits on.
    pub fn settle(&mut self, fr: FutureResult<R>) -> (r: FutureResult<R>)
        requires
            *old(self) is Later,
        ensures
            settled(*old(self), fr, *final(self), r),
    {
        match fr {
            FutureResult::Done(y) => {
                *self = Task::Immediate { r: None };
                FutureResult::Done(y)
            },
            FutureResult::Again(a2) => {
                let copy = a2.duplicate();
                if let Task::Later { f: _, a } = self {
                    *a = a2;
                }
                FutureResult::Again(copy)
            },
        }
    }

    /// The single state transition. A value is handed out once; a suspended
    /// computation is resumed exactly when [`is_ready`] holds, and is
    /// otherwise left as it was, its descriptor handed back unchanged.
    pub fn poll(&mut self, poll: &mut Poll) -> (r: FutureResult<R>)
        requires
            !old(self).is_spent(),
        ensures
            final(poll).next_id() >= old(poll).next_id(),
            final(poll).now_ms() == old(poll).now_ms(),
            final(poll).fired() == old(poll).fired(),
            polled(*old(self), *final(self), *old(poll), *final(poll), r),
            *old(self) is Later && is_ready(old(self)->Later_a, *old(poll)) ==> exists|
                resumed: Task<R>,
                fr: FutureResult<R>,
            |
                resumed is Later && resumed->Later_a == old(self)->Later_a && settled(
                    resumed,
                    fr,
                    *final(self),
                    r,
                ),
    {
        match self {
            Task::Immediate { r } => {
                let v = r.take();
                FutureResult::Done(v.unwrap())
            },
            Task::Later { f, a } => {
                let mut ready = false;
                if let Some(deadline) = a.deadline {
                    if poll.time_of_cycle() >= deadline {
                        ready = true;
                    }
                }
                if !ready {
                    ready = poll.any_active(a);
                }
                if ready {
                    let fr = f.poll(poll);
                    let ghost resumed = *self;
                    let ghost given = fr;
                    let r = self.settle(fr);
                    assert(resumed is Later && settled(resumed, given, *self, r));
                    return r;
                }
                FutureResult::Again(a.duplicate())
            },
        }
    }
}

/// A task made by `immediate(v)` hands out `v` on its first poll without
/// touching the reactor, and is spent afterwards.
pub proof fn lemma_immediate_done<R>(
    v: R,
    t1: Task<R>,
    p0: Poll,
    p1: Poll,
    r: FutureResult<R>,
)
    requires
        polled(Task::Immediate { r: Some(v) }, t1, p0, p1, r),
    ensures
        r == FutureResult::<R>::Done(v),
        p1 == p0,
        t1.is_spent(),
{
}

/// A task suspended on an elapsed deadline is resumed by its next poll even
/// when no token is active; the descriptor it then holds is the one the
/// computation yielded, and a second poll against the same cycle resumes it
/// again only if that new descriptor is itself ready.
pub proof fn lemma_resumed_once_per_deadline<R>(
    f: Box<dyn Future<R>>,
    a: Again,
    t1: Task<R>,
    t2: Task<R>,
    p0: Poll,
    p1: Poll,
    p2: Poll,
    r1: FutureResult<R>,
    r2: FutureResult<R>,
)
    requires
        a.deadline is Some,
        a.deadline->Some_0 <= p0.now_ms(),
        polled(Task::Later { f, a }, t1, p0, p1, r1),
        p1.now_ms() == p0.now_ms(),
        p1.fired() == p0.fired(),
        r1 is Again,
        !is_ready(r1->Again_0, p1),
        polled(t1, t2, p1, p2, r2),
    ensures
        is_ready(a, p0),
        t1 matches Task::Later { f: _, a: a1 } && a1@ == r1->Again_0@,
        t2 == t1,
        p2 == p1,
        r2->Again_0@ == r1->Again_0@,
{
    let a1 = t1->Later_a;
    assert(is_ready(a1, p1) == is_ready(r1->Again_0, p1)) by {
        assert(a1.tokens@ == r1->Again_0.tokens@);
        assert(a1.deadline == r1->Again_0.deadline);
    }
}

/// A timer never fires early: a descriptor with no token is ready only once
/// the clock of the cycle has reached its deadline.
pub proof fn lemma_timer_not_early(a: Again, p: Poll)
    requires
        a.tokens@.len() == 0,
        is_ready(a, p),
    ensures
        a.deadline is Some,
        a.deadline->Some_0 <= p.now_ms(),
{
}

/// The driver blocks exactly until a deadline still ahead, and never for
/// zero time once it has passed: a timer is served by the one cycle that
/// ends at its deadline.
pub proof fn lemma_timeout_reaches_deadline(d: u64, now: u64)
    ensures
        now < d ==> timeout_spec(Some(d), now) == Some((d - now) as u64),
        now < d ==> now + timeout_spec(Some(d), now)->Some_0 == d,
        now >= d ==> timeout_spec(Some(d), now) == Some(MIN_TIMEOUT_MS),
        timeout_spec(Some(d), now) != Some(0u64),
        timeout_spec(None, now) is None,
{
}

/// A descriptor with neither token nor deadline is never ready, whatever
/// a cycle reports: the blocking driver refuses it, and inside an executor
/// it stays suspended.
pub proof fn lemma_inert_never_ready(a: Again, p: Poll)
    requires
        a.is_inert(),
    ensures
        !is_ready(a, p),
{
}

/// A token that a cycle reports makes every descriptor naming it ready, so
/// the owning task's next poll resumes its computation.
pub proof fn lemma_fired_token_resumes<R>(
    f: Box<dyn Future<R>>,
    a: Again,
    token: Token,
    t1: Task<R>,
    p0: Poll,
    p1: Poll,
    r: FutureResult<R>,
)
    requires
        a.tokens@.contains(token),
        p0.fired().contains(token.id),
        polled(Task::Later { f, a }, t1, p0, p1, r),
    ensures
        is_ready(a, p0),
        r is Done ==> t1.is_spent(),
        r is Again ==> (t1 matches Task::Later { f: _, a: a1 } && a1@ == r->Again_0@),
{
    let i = choose|i: int| 0 <= i < a.tokens@.len() && a.tokens@[i] == token;
    assert(p0.active(a.tokens@[i].id));
}

} // verus!
