//! The reactor: token allocation, the readiness multiplexer, and the clock.
use vstd::prelude::*;
use crate::again::{Again, Token};
use mio::Poll as Mux;

verus! {

/// mio's readiness multiplexer, carried opaque.
#[verifier::external_type_specification]
#[verifier::external_body]
pub struct ExMux(Mux);

/// mio's readiness interest set, handed through to registration.
#[verifier::external_type_specification]
#[verifier::external_body]
pub struct ExMioReady(mio::Ready);

/// mio's registration options, handed through to registration.
#[verifier::external_type_specification]
#[verifier::external_body]
pub struct ExMioPollOpt(mio::PollOpt);

/// An I/O error, carried opaque to the caller.
#[verifier::external_type_specification]
#[verifier::external_body]
pub struct ExIoError(std::io::Error);

/// A monotonic instant: the origin of a reactor's clock.
#[verifier::external_type_specification]
#[verifier::external_body]
pub struct ExInstant(std::time::Instant);

/// How many readiness events one poll cycle can report.
pub const EVENT_CAPACITY: usize = 1024;

/// Relies on mio::Poll::new: a fresh multiplexer, or the error the OS gave.
#[verifier::external_body]
fn mux_new() -> (r: Result<Mux, std::io::Error>) {
    Mux::new()
}

/// Relies on mio::Poll::register: binds `handle` under token `id`.
#[verifier::external_body]
fn mux_register<E: ?Sized + mio::Evented>(
    mux: &Mux,
    handle: &E,
    id: usize,
    interest: mio::Ready,
    opts: mio::PollOpt,
) -> (r: Result<(), std::io::Error>) {
    mux.register(handle, mio::Token(id), interest, opts)
}

/// Relies on mio::Poll::poll: blocks for at most `timeout_ms` milliseconds
/// (without limit when absent), and hands out the token of each event.
#[verifier::external_body]
fn mux_poll(mux: &Mux, capacity: usize, timeout_ms: Option<u64>) -> (r: Result<
    Vec<usize>,
    std::io::Error,
>) {
    let mut events = mio::Events::with_capacity(capacity);
    mux.poll(&mut events, timeout_ms.map(std::time::Duration::from_millis))?;
    Ok(events.iter().map(|e| e.token().0).collect())
}

/// Relies on std::time::Instant::now: the current monotonic instant.
#[verifier::external_body]
fn clock_origin() -> (r: std::time::Instant) {
    std::time::Instant::now()
}

/// Relies on std::time::Instant::elapsed: whole milliseconds since `origin`.
#[verifier::external_body]
fn clock_ms(origin: &std::time::Instant) -> (r: u64) {
    origin.elapsed().as_millis() as u64
}

/// The reactor: owns the multiplexer, hands out fresh tokens, and keeps
/// what the last poll cycle reported.
pub struct Poll {
    mux: Mux,
    origin: std::time::Instant,
    next: usize,
    now: u64,
    fired: Vec<usize>,
}

impl Poll {
    /// The identifier the next registration receives; every token issued so
    /// far is below it.
    pub closed spec fn next_id(&self) -> usize {
        self.next
    }

    /// The clock reading (milliseconds since this reactor was made) taken at
    /// the end of the last poll cycle.
    pub closed spec fn now_ms(&self) -> u64 {
        self.now
    }

    /// The token identifiers that the last poll cycle reported ready.
    pub closed spec fn fired(&self) -> Seq<usize> {
        self.fired@
    }

    /// Whether a token counts as active in the current cycle.
    pub open spec fn active(&self, id: usize) -> bool {
        self.fired().contains(id)
    }

    /// A reactor with no registration, no event and the clock at its origin.
    pub fn new() -> (r: Result<Poll, std::io::Error>)
        ensures
            r is Ok ==> r->Ok_0.next_id() == 0 && r->Ok_0.fired().len() == 0
                && r->Ok_0.now_ms() == 0,
    {
        let mux = mux_new()?;
        let origin = clock_origin();
        Ok(Poll { mux, origin, next: 0, now: 0, fired: Vec::new() })
    }

    /// Binds `handle` under a fresh token. The identifier is used up even
    /// when the multiplexer refuses the registration, so none is ever issued
    /// twice.
    pub fn register<E: ?Sized + mio::Evented>(
        &mut self,
        handle: &E,
        interest: mio::Ready,
        opts: mio::PollOpt,
    ) -> (r: Result<Token, std::io::Error>)
        requires
            old(self).next_id() < usize::MAX - 1,
        ensures
            final(self).next_id() == old(self).next_id() + 1,
            final(self).now_ms() == old(self).now_ms(),
            final(self).fired() == old(self).fired(),
            r is Ok ==> r->Ok_0.id == old(self).next_id(),
    {
        let id = self.next;
        self.next = self.next + 1;
        match mux_register(&self.mux, handle, id, interest, opts) {
            Ok(()) => Ok(Token { id }),
            Err(e) => Err(e),
        }
    }

    /// The identifier the next registration receives.
    pub fn issued(&self) -> (r: usize)
        ensures
            r == self.next_id(),
    {
        self.next
    }

    /// Whether `token` was reported ready by the last poll cycle.
    pub fn is_active(&self, token: Token) -> (r: bool)
        ensures
            r == self.active(token.id),
    {
        let mut i: usize = 0;
        while i < self.fired.len()
            invariant
                i <= self.fired@.len(),
                forall|j: int| 0 <= j < i ==> self.fired@[j] != token.id,
            decreases self.fired@.len() - i,
        {
            if self.fired[i] == token.id {
                return true;
            }
            i = i + 1;
        }
        false
    }

    /// The clock reading taken at the end of the last poll cycle.
    pub fn time_of_cycle(&self) -> (r: u64)
        ensures
            r == self.now_ms(),
    {
        self.now
    }

    /// Whether one of the tokens of `a` was reported ready by the last poll
    /// cycle.
    pub fn any_active(&self, a: &Again) -> (r: bool)
        ensures
            r == exists|i: int| 0 <= i < a.tokens@.len() && self.active(#[trigger] a.tokens@[i].id),
    {
        let mut i: usize = 0;
        while i < a.tokens.len()
            invariant
                i <= a.tokens@.len(),
                forall|j: int| 0 <= j < i ==> !self.active(#[trigger] a.tokens@[j].id),
            decreases a.tokens@.len() - i,
        {
            if self.is_active(a.tokens[i]) {
                return true;
            }
            i = i + 1;
        }
        false
    }

    /// Reads the clock: milliseconds since this reactor was made, never
    /// before the reading of the last poll cycle.
    pub fn time(&self) -> (r: u64)
        ensures
            r >= self.now_ms(),
    {
        let t = clock_ms(&self.origin);
        if t > self.now {
            t
        } else {
            self.now
        }
    }

    /// Reads the clock into the current cycle, without polling: what the
    /// cycle reported stays.
    pub fn tick(&mut self)
        ensures
            final(self).next_id() == old(self).next_id(),
            final(self).fired() == old(self).fired(),
            final(self).now_ms() >= old(self).now_ms(),
    {
        self.now = self.time();
    }

    /// One poll cycle: blocks until a registered source is ready or
    /// `timeout_ms` has passed (without limit when absent), then records the
    /// tokens reported and reads the clock. Every token not reported is
    /// inactive afterwards.
    pub fn poll_once(&mut self, timeout_ms: Option<u64>) -> (r: Result<(), std::io::Error>)
        ensures
            final(self).next_id() == old(self).next_id(),
            final(self).now_ms() >= old(self).now_ms(),
            r is Err ==> final(self).fired().len() == 0,
    {
        self.fired = Vec::new();
        let ids = mux_poll(&self.mux, EVENT_CAPACITY, timeout_ms)?;
        self.fired = ids;
        self.now = self.time();
        Ok(())
    }

    /// A descriptor that never wakes: no token and no deadline.
    pub fn never(&self) -> (r: Again)
        ensures
            r.is_inert(),
    {
        Again::never()
    }

    /// A pure timer: no token, and a deadline `delay_ms` after the clock
    /// reads now.
    pub fn later(&self, delay_ms: u64) -> (r: Again)
        ensures
            r.tokens@.len() == 0,
            exists|t: u64| t >= self.now_ms() && r.deadline == Some(after(t, delay_ms)),
    {
        let t = self.time();
        Again::new(Vec::new(), t, Some(delay_ms))
    }

    /// Wakes when `token` is active, or, when `delay_ms` is given, once that
    /// many milliseconds have passed.
    pub fn again(&self, token: Token, delay_ms: Option<u64>) -> (r: Again)
        ensures
            r.tokens@ == seq![token],
            delay_ms is None ==> r.deadline is None,
            delay_ms is Some ==> exists|t: u64|
                t >= self.now_ms() && r.deadline == Some(after(t, delay_ms->Some_0)),
    {
        let t = self.time();
        let mut tokens = Vec::new();
        tokens.push(token);
        Again::new(tokens, t, delay_ms)
    }

    /// Wakes when any of `tokens` is active, or, when `delay_ms` is given,
    /// once that many milliseconds have passed.
    pub fn any(&self, tokens: Vec<Token>, delay_ms: Option<u64>) -> (r: Again)
        ensures
            r.tokens@ == tokens@,
            delay_ms is None ==> r.deadline is None,
            delay_ms is Some ==> exists|t: u64|
                t >= self.now_ms() && r.deadline == Some(after(t, delay_ms->Some_0)),
    {
        let t = self.time();
        Again::new(tokens, t, delay_ms)
    }
}

/// The instant `delay` milliseconds after `t`, or the last one that fits.
pub open spec fn after(t: u64, delay: u64) -> u64 {
    if t + delay <= u64::MAX {
        (t + delay) as u64
    } else {
        u64::MAX
    }
}

} // verus!
