use std::cell::Cell;
use std::rc::Rc;
use std::time::{Duration, Instant};

use osaka::again::Again;
use osaka::task::{timeout_for, MIN_TIMEOUT_MS};
use osaka::{Executor, Future, FutureResult, Poll, RunError, Task, Token};

/// Counts its resumes; finishes with `value` after `rounds` resumes,
/// yielding `next` in between.
struct Counting {
    resumes: Rc<Cell<u32>>,
    rounds: u32,
    value: u32,
    next: Option<Again>,
}

impl Future<u32> for Counting {
    fn poll(&mut self, _poll: &mut Poll) -> FutureResult<u32> {
        self.resumes.set(self.resumes.get() + 1);
        if self.resumes.get() >= self.rounds {
            FutureResult::Done(self.value)
        } else {
            match &self.next {
                Some(a) => FutureResult::Again(a.duplicate()),
                None => FutureResult::Again(Again::never()),
            }
        }
    }
}

/// Fails on its first resume.
struct Failing;

impl Future<Result<u32, String>> for Failing {
    fn poll(&mut self, _poll: &mut Poll) -> FutureResult<Result<u32, String>> {
        FutureResult::Done(Err("bad".to_string()))
    }
}

fn counting(rounds: u32, value: u32, next: Option<Again>) -> (Box<dyn Future<u32>>, Rc<Cell<u32>>) {
    let resumes = Rc::new(Cell::new(0));
    let f = Counting { resumes: resumes.clone(), rounds, value, next };
    (Box::new(f), resumes)
}

fn drive<R>(task: &mut Task<R>, poll: &mut Poll) -> Result<R, RunError> {
    loop {
        if let Some(v) = task.step(poll)? {
            return Ok(v);
        }
    }
}

#[test]
fn immediate_is_done_on_first_poll() {
    let mut poll = Poll::new().unwrap();
    let mut t = Task::immediate(42u32);
    assert!(!t.spent());
    match t.poll(&mut poll) {
        FutureResult::Done(v) => assert_eq!(v, 42),
        FutureResult::Again(_) => panic!("an immediate task is done at once"),
    }
    assert!(t.spent());
}

#[test]
fn elapsed_deadline_resumes_once() {
    let mut poll = Poll::new().unwrap();
    let (f, resumes) = counting(3, 1, None);
    let mut t = Task::new(f, Again { tokens: Vec::new(), deadline: Some(0) });
    match t.poll(&mut poll) {
        FutureResult::Again(a) => assert!(a.tokens.is_empty() && a.deadline.is_none()),
        FutureResult::Done(_) => panic!("not done yet"),
    }
    assert_eq!(resumes.get(), 1);
    for _ in 0..3 {
        match t.poll(&mut poll) {
            FutureResult::Again(a) => assert!(a.deadline.is_none()),
            FutureResult::Done(_) => panic!("not ready"),
        }
    }
    assert_eq!(resumes.get(), 1);
}

#[test]
fn unready_task_is_left_unchanged() {
    let mut poll = Poll::new().unwrap();
    let (f, resumes) = counting(1, 5, None);
    let mut t = Task::new(f, Again { tokens: vec![Token { id: 7 }], deadline: Some(1_000_000) });
    for _ in 0..2 {
        match t.poll(&mut poll) {
            FutureResult::Again(a) => {
                assert_eq!(a.tokens.len(), 1);
                assert_eq!(a.tokens[0].id, 7);
                assert_eq!(a.deadline, Some(1_000_000));
            }
            FutureResult::Done(_) => panic!("not ready"),
        }
    }
    assert_eq!(resumes.get(), 0);
}

#[test]
fn timer_fires_no_earlier_than_its_delay() {
    let mut poll = Poll::new().unwrap();
    let start = Instant::now();
    let (f, resumes) = counting(1, 9, None);
    let later = poll.later(500);
    let mut t = Task::new(f, later);
    let v = drive(&mut t, &mut poll).unwrap();
    let elapsed = start.elapsed();
    assert_eq!(v, 9);
    assert_eq!(resumes.get(), 1);
    assert!(elapsed >= Duration::from_millis(500));
    assert!(elapsed < Duration::from_millis(700));
}

#[test]
fn inert_descriptor_is_refused_by_the_driver() {
    let mut poll = Poll::new().unwrap();
    let (f, resumes) = counting(1, 0, None);
    let mut t = Task::new(f, poll.never());
    let start = Instant::now();
    match t.step(&mut poll) {
        Err(RunError::Configuration) => {}
        _ => panic!("expected a configuration fault"),
    }
    assert!(start.elapsed() < Duration::from_millis(100));
    assert_eq!(resumes.get(), 0);
}

#[test]
fn inert_descriptor_is_legal_in_an_executor() {
    let poll = Poll::new().unwrap();
    let mut ex: Executor<u32> = Executor::new(poll);
    let (f, resumes) = counting(1, 0, None);
    ex.add(Task::new(f, Again::never()));
    for _ in 0..3 {
        let done = ex.activate();
        assert!(done.is_empty());
        assert_eq!(ex.len(), 1);
    }
    assert_eq!(resumes.get(), 0);
}

#[test]
fn executor_completes_timers_in_deadline_order() {
    let poll = Poll::new().unwrap();
    let mut ex: Executor<u32> = Executor::new(poll);
    for d in [300u64, 100, 200] {
        ex.with(|p: &mut Poll| {
            let (f, _) = counting(1, d as u32, None);
            Task::new(f, p.later(d))
        });
    }
    assert_eq!(ex.len(), 3);
    let mut order = Vec::new();
    loop {
        order.extend(ex.activate());
        if ex.is_empty() {
            break;
        }
        ex.wait().unwrap();
    }
    assert_eq!(order, vec![100, 200, 300]);
    assert!(ex.is_empty());
}

#[test]
fn activate_on_empty_executor_is_a_no_op() {
    let poll = Poll::new().unwrap();
    let mut ex: Executor<u32> = Executor::new(poll);
    assert!(ex.activate().is_empty());
    assert!(ex.is_empty());
    assert_eq!(ex.next_deadline(), None);
}

#[test]
fn executor_hands_out_immediate_values_in_order() {
    let poll = Poll::new().unwrap();
    let mut ex: Executor<u32> = Executor::new(poll);
    ex.add(Task::immediate(1));
    ex.add(Task::immediate(2));
    assert_eq!(ex.next_deadline(), Some(0));
    assert_eq!(ex.activate(), vec![1, 2]);
    assert!(ex.is_empty());
}

#[test]
fn timeouts_follow_the_deadline() {
    assert_eq!(timeout_for(None, 10), None);
    assert_eq!(timeout_for(Some(500), 100), Some(400));
    assert_eq!(timeout_for(Some(100), 100), Some(MIN_TIMEOUT_MS));
    assert_eq!(timeout_for(Some(100), 101), Some(MIN_TIMEOUT_MS));
    assert_eq!(MIN_TIMEOUT_MS, 1);
}

#[test]
fn registered_source_fires_its_token() {
    let mut poll = Poll::new().unwrap();
    let (reg, ready) = mio::Registration::new2();
    let first = poll
        .register(&reg, mio::Ready::readable(), mio::PollOpt::level())
        .unwrap();
    let (quiet, _quiet_ready) = mio::Registration::new2();
    let second = poll
        .register(&quiet, mio::Ready::readable(), mio::PollOpt::level())
        .unwrap();
    assert_eq!(first.id, 0);
    assert_eq!(second.id, 1);

    let (f, resumes) = counting(1, 11, None);
    let mut t = Task::new(f, poll.again(first, None));
    match t.poll(&mut poll) {
        FutureResult::Again(_) => {}
        FutureResult::Done(_) => panic!("nothing fired yet"),
    }
    assert_eq!(resumes.get(), 0);
    ready.set_readiness(mio::Ready::readable()).unwrap();
    poll.poll_once(Some(2000)).unwrap();
    assert!(poll.is_active(first));
    assert!(!poll.is_active(second));
    match t.poll(&mut poll) {
        FutureResult::Done(v) => assert_eq!(v, 11),
        FutureResult::Again(_) => panic!("the token fired"),
    }
    assert_eq!(resumes.get(), 1);
}

#[test]
fn nested_task_bubbles_its_descriptor() {
    let mut poll = Poll::new().unwrap();
    let (f, inner_resumes) = counting(1, 3, None);
    let inner = Task::new(f, Again { tokens: vec![Token { id: 40 }], deadline: Some(0) });
    let mut a = Again { tokens: vec![Token { id: 41 }], deadline: None };
    match &inner {
        Task::Later { a: ia, .. } => a.merge(ia.duplicate()),
        Task::Immediate { .. } => unreachable!(),
    }
    assert_eq!(a.tokens.len(), 2);
    assert_eq!(a.deadline, Some(0));
    let mut inner = inner;
    match inner.poll(&mut poll) {
        FutureResult::Done(v) => assert_eq!(v, 3),
        FutureResult::Again(_) => panic!("deadline elapsed"),
    }
    assert_eq!(inner_resumes.get(), 1);
}

#[test]
fn wakeup_now_makes_the_task_due() {
    let mut poll = Poll::new().unwrap();
    let (f, resumes) = counting(1, 8, None);
    let mut t = Task::new(f, Again { tokens: vec![Token { id: 3 }], deadline: Some(1_000_000) });
    match t.poll(&mut poll) {
        FutureResult::Again(_) => {}
        FutureResult::Done(_) => panic!("not due yet"),
    }
    t.wakeup_now(&mut poll);
    match t.poll(&mut poll) {
        FutureResult::Done(v) => assert_eq!(v, 8),
        FutureResult::Again(_) => panic!("woken"),
    }
    assert_eq!(resumes.get(), 1);
}

#[test]
fn settle_stores_what_the_computation_gave() {
    let (f, _) = counting(1, 0, None);
    let mut t = Task::new(f, Again::never());
    match t.settle(FutureResult::Again(Again { tokens: vec![Token { id: 2 }], deadline: Some(9) })) {
        FutureResult::Again(a) => assert_eq!(a.deadline, Some(9)),
        FutureResult::Done(_) => panic!("yielded"),
    }
    match &t {
        Task::Later { a, .. } => {
            assert_eq!(a.tokens.len(), 1);
            assert_eq!(a.tokens[0].id, 2);
            assert_eq!(a.deadline, Some(9));
        }
        Task::Immediate { .. } => panic!("still suspended"),
    }
    match t.settle(FutureResult::Done(Err::<u32, &str>("failed").unwrap_or(6))) {
        FutureResult::Done(v) => assert_eq!(v, 6),
        FutureResult::Again(_) => panic!("finished"),
    }
    assert!(t.spent());
}

#[test]
fn computation_failure_is_the_task_value() {
    let mut poll = Poll::new().unwrap();
    let mut t = Task::new(Box::new(Failing), poll.later(0));
    assert_eq!(drive(&mut t, &mut poll).unwrap(), Err("bad".to_string()));
}

#[test]
fn stepping_an_immediate_task_does_not_poll() {
    let mut poll = Poll::new().unwrap();
    let mut t = Task::immediate(7u32);
    let start = Instant::now();
    assert_eq!(t.step(&mut poll).unwrap(), Some(7));
    assert!(start.elapsed() < Duration::from_millis(50));
    assert!(t.spent());
}
