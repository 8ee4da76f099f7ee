//! Activation tokens and suspension descriptors.
use vstd::prelude::*;
use crate::reactor::after;

verus! {

/// An activation token: the identifier under which one source was
/// registered with the reactor.
#[derive(Clone, Copy, PartialEq, Eq, Structural, Debug)]
pub struct Token {
    pub id: usize,
}

/// The earlier of two optional deadlines, an absent one standing for no
/// deadline at all.
pub open spec fn earliest(a: Option<u64>, b: Option<u64>) -> Option<u64> {
    match (a, b) {
        (Some(x), Some(y)) => Some(if x <= y { x } else { y }),
        (Some(x), None) => Some(x),
        (None, _) => b,
    }
}

/// What a suspended computation waits for: any of its tokens becoming
/// active, or its deadline (milliseconds since the reactor's origin)
/// passing.
#[derive(Clone, Debug)]
pub struct Again {
    pub tokens: Vec<Token>,
    pub deadline: Option<u64>,
}

impl View for Again {
    type V = (Seq<Token>, Option<u64>);

    open spec fn view(&self) -> (Seq<Token>, Option<u64>) {
        (self.tokens@, self.deadline)
    }
}

impl Again {
    /// A copy of this descriptor.
    pub fn duplicate(&self) -> (r: Again)
        ensures
            r@ == self@,
    {
        let tokens = self.tokens.clone();
        assert(tokens@ =~= self.tokens@);
        Again { tokens, deadline: self.deadline }
    }

    /// Whether one of the tokens carries identifier `id`.
    pub open spec fn waits_on(self, id: usize) -> bool {
        exists|i: int| 0 <= i < self.tokens@.len() && #[trigger] self.tokens@[i].id == id
    }

    /// The set of token identifiers waited on.
    pub open spec fn id_set(self) -> Set<usize> {
        Set::new(|id: usize| self.waits_on(id))
    }

    /// `self` is what merging `b` into `a` gives.
    pub open spec fn is_merge_of(self, a: Again, b: Again) -> bool {
        &&& self.tokens@ == a.tokens@ + b.tokens@
        &&& self.deadline == earliest(a.deadline, b.deadline)
    }

    /// Neither a token nor a deadline: nothing will ever wake it.
    pub open spec fn is_inert(self) -> bool {
        self.tokens@.len() == 0 && self.deadline.is_none()
    }

    /// Two descriptors that wake on the same tokens and the same deadline.
    pub open spec fn same_wake(self, other: Again) -> bool {
        self.id_set() == other.id_set() && self.deadline == other.deadline
    }

    /// A descriptor with no token and no deadline.
    pub fn never() -> (r: Again)
        ensures
            r.tokens@.len() == 0,
            r.deadline.is_none(),
    {
        Again { tokens: Vec::new(), deadline: None }
    }

    /// A descriptor waiting on `tokens`, and, when `delay` is given, until
    /// `delay` milliseconds after `now` (the largest deadline if that sum
    /// does not fit).
    pub fn new(tokens: Vec<Token>, now: u64, delay: Option<u64>) -> (r: Again)
        ensures
            r.tokens@ == tokens@,
            r.deadline == match delay {
                Some(d) => Some(after(now, d)),
                None => None::<u64>,
            },
    {
        let deadline = match delay {
            Some(d) => Some(now.saturating_add(d)),
            None => None,
        };
        Again { tokens, deadline }
    }

    /// Wait also for what `other` waits for: the tokens of both, and the
    /// earlier of the two deadlines.
    pub fn merge(&mut self, other: Again)
        ensures
            final(self).is_merge_of(*old(self), other),
    {
        let mut other = other;
        if let Some(t2) = other.deadline {
            let take = match self.deadline {
                Some(t1) => t1 > t2,
                None => true,
            };
            if take {
                self.deadline = Some(t2);
            }
        }
        self.tokens.append(&mut other.tokens);
    }
}

/// A merge waits on the union of the two token sets.
pub proof fn lemma_merge_ids(a: Again, b: Again, r: Again)
    requires
        r.is_merge_of(a, b),
    ensures
        r.id_set() == a.id_set().union(b.id_set()),
{
    assert forall|id: usize| r.waits_on(id) <==> (a.waits_on(id) || b.waits_on(id)) by {
        if r.waits_on(id) {
            let i = choose|i: int| 0 <= i < r.tokens@.len() && #[trigger] r.tokens@[i].id == id;
            if i < a.tokens@.len() {
                assert(a.tokens@[i] == r.tokens@[i]);
            } else {
                assert(b.tokens@[i - a.tokens@.len()] == r.tokens@[i]);
            }
        }
        if a.waits_on(id) {
            let i = choose|i: int| 0 <= i < a.tokens@.len() && #[trigger] a.tokens@[i].id == id;
            assert(r.tokens@[i] == a.tokens@[i]);
        }
        if b.waits_on(id) {
            let i = choose|i: int| 0 <= i < b.tokens@.len() && #[trigger] b.tokens@[i].id == id;
            assert(r.tokens@[i + a.tokens@.len()] == b.tokens@[i]);
        }
    }
    assert(r.id_set() =~= a.id_set().union(b.id_set()));
}

/// Merging is commutative: either order wakes on the same tokens and the
/// same deadline.
pub proof fn lemma_merge_commutative(a: Again, b: Again, ab: Again, ba: Again)
    requires
        ab.is_merge_of(a, b),
        ba.is_merge_of(b, a),
    ensures
        ab.same_wake(ba),
{
    lemma_merge_ids(a, b, ab);
    lemma_merge_ids(b, a, ba);
    assert(ab.id_set() =~= ba.id_set());
}

/// Merging is associative: `(a + b) + c` and `a + (b + c)` wake on the
/// same tokens and the same deadline.
pub proof fn lemma_merge_associative(
    a: Again,
    b: Again,
    c: Again,
    ab: Again,
    ab_c: Again,
    bc: Again,
    a_bc: Again,
)
    requires
        ab.is_merge_of(a, b),
        ab_c.is_merge_of(ab, c),
        bc.is_merge_of(b, c),
        a_bc.is_merge_of(a, bc),
    ensures
        ab_c.same_wake(a_bc),
        ab_c.tokens@ == a_bc.tokens@,
{
    assert(ab_c.tokens@ =~= a_bc.tokens@);
    assert(ab_c.id_set() =~= a_bc.id_set());
    assert(ab_c.deadline == a_bc.deadline) by {
        match (a.deadline, b.deadline, c.deadline) {
            (Some(x), Some(y), Some(z)) => {},
            _ => {},
        }
    }
}

/// A descriptor with no token and no deadline is the identity of merging,
/// on either side.
pub proof fn lemma_merge_identity(a: Again, n: Again, an: Again, na: Again)
    requires
        n.is_inert(),
        an.is_merge_of(a, n),
        na.is_merge_of(n, a),
    ensures
        an.same_wake(a),
        na.same_wake(a),
        an.tokens@ == a.tokens@,
        na.tokens@ == a.tokens@,
{
    assert(an.tokens@ =~= a.tokens@);
    assert(na.tokens@ =~= a.tokens@);
    assert(an.id_set() =~= a.id_set());
    assert(na.id_set() =~= a.id_set());
}

} // verus!
