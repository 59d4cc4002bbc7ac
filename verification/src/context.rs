//! What the operators share with the code around them: subscriptions that can
//! be ended, and state that is only touched one section at a time.

use std::sync::Arc;
use vstd::prelude::*;
use vstd::rwlock::{RwLock, RwLockPredicate};

verus! {

/// A running subscription, or anything else that can be cancelled once.
///
/// Both methods are the implementor's own code, and may have any effect.
pub trait Subscription: Sized {
    /// Ends the subscription.
    fn unsubscribe(self);

    /// Whether the subscription has already ended.
    fn is_closed(&self) -> bool;
}

/// `subscription` has been ended by a call of its own `unsubscribe`.
pub open spec fn unsubscribed<U: Subscription>(subscription: U) -> bool {
    call_ensures(U::unsubscribe, (subscription,), ())
}

/// A value that is shared, and that changes from section to section.
pub trait Evolving: Sized {
    /// One section may turn `before` into `after`.
    spec fn evolves(before: Self, after: Self) -> bool;
}

/// One section may turn the value at `i` into the one that follows it.
pub open spec fn linked<T: Evolving>(history: Seq<T>, i: int) -> bool {
    T::evolves(history[i], history[i + 1])
}

/// `history` begins with `start`, ends with `value`, and goes from each of its
/// values to the next by one section.
pub open spec fn leads<T: Evolving>(history: Seq<T>, start: T, value: T) -> bool {
    &&& history.len() > 0
    &&& history.first() == start
    &&& history.last() == value
    &&& forall|i: int| 0 <= i < history.len() - 1 ==> #[trigger] linked(history, i)
}

/// Sections may have turned `start` into `value`, one after the other.
pub open spec fn reaches<T: Evolving>(start: T, value: T) -> bool {
    exists|history: Seq<T>| #[trigger] leads(history, start, value)
}

proof fn lemma_reaches_itself<T: Evolving>(start: T)
    ensures
        reaches(start, start),
{
    assert(leads(seq![start], start, start));
}

proof fn lemma_reaches_next<T: Evolving>(start: T, before: T, after: T)
    requires
        reaches(start, before),
        T::evolves(before, after),
    ensures
        reaches(start, after),
{
    let history = choose|history: Seq<T>| #[trigger] leads(history, start, before);
    let longer = history.push(after);
    assert forall|i: int| 0 <= i < longer.len() - 1 implies #[trigger] linked(longer, i) by {
        if i < history.len() - 1 {
            assert(linked(history, i));
        }
    }
    assert(leads(longer, start, after));
}

/// A piece of work on a shared value, done in one go while nothing else can
/// see the value.
pub trait Section<T: Evolving>: Sized {
    /// What the section reports back.
    type Out;

    /// The section may turn `before` into `after` and report `out`.
    spec fn effect(self, before: T, after: T, out: Self::Out) -> bool;

    /// What the section does is one of the changes that the value may undergo.
    proof fn effect_evolves(self, before: T, after: T, out: Self::Out)
        requires
            self.effect(before, after, out),
        ensures
            T::evolves(before, after),
    ;

    /// Does the work.
    fn run(self, state: &mut T) -> (out: Self::Out)
        ensures
            self.effect(*old(state), *final(state), out),
    ;
}

/// `section` has been run on a value that `start` had turned into, and has
/// reported `out`.
pub open spec fn has_run_since<T: Evolving, X: Section<T>>(
    start: T,
    section: X,
    out: X::Out,
) -> bool {
    exists|before: T, after: T| #[trigger]
        section.effect(before, after, out) && reaches(start, before)
}

/// A handle to a value that several owners share.
///
/// Between two sections the other owners may have run theirs, so a section finds
/// whatever sections may have made of the value that was shared at first.
pub trait SharedCell {
    /// The shared value.
    type Target: Evolving;

    /// The value that was shared at first. Only proofs speak of it: it is never
    /// called.
    spec fn start(&self) -> Self::Target;

    /// Runs `section` on the shared value, with nobody else looking.
    fn update<X: Section<Self::Target>>(&self, section: X) -> (out: X::Out)
        ensures
            has_run_since(self.start(), section, out),
    ;
}

/// `section` has been run on the value that `cell` shares, and has reported
/// `out`.
pub open spec fn updated<C: SharedCell, X: Section<C::Target>>(
    cell: C,
    section: X,
    out: X::Out,
) -> bool {
    call_ensures(C::update::<X>, (&cell, section), out)
}

/// Only what `start` has turned into is kept in a [`MutArc`].
#[verifier::reject_recursive_types(T)]
pub struct Since<T> {
    start: Ghost<T>,
}

impl<T: Evolving> RwLockPredicate<T> for Since<T> {
    closed spec fn inv(self, v: T) -> bool {
        reaches(self.start@, v)
    }
}

/// A shared value behind a lock, for owners on any thread.
#[verifier::reject_recursive_types(T)]
pub struct MutArc<T: Evolving> {
    lock: Arc<RwLock<T, Since<T>>>,
}

impl<T: Evolving> MutArc<T> {
    /// Shares `value`: every section finds what earlier sections have made of
    /// it.
    pub fn new(value: T) -> (handle: Self)
        ensures
            handle.start() == value,
    {
        proof {
            lemma_reaches_itself(value);
        }
        let ghost since = Since { start: Ghost(value) };
        MutArc { lock: Arc::new(RwLock::new(value, Ghost(since))) }
    }
}

impl<T: Evolving> Clone for MutArc<T> {
    /// Another handle to the same value.
    fn clone(&self) -> (handle: Self)
        ensures
            handle == *self,
    {
        MutArc { lock: self.lock.clone() }
    }
}

impl<T: Evolving> SharedCell for MutArc<T> {
    type Target = T;

    closed spec fn start(&self) -> T {
        self.lock.pred().start@
    }

    fn update<X: Section<T>>(&self, section: X) -> (out: X::Out) {
        let (value, handle) = self.lock.acquire_write();
        let mut value = value;
        let ghost before = value;
        let out = section.run(&mut value);
        assert(section.effect(before, value, out));
        proof {
            section.effect_evolves(before, value, out);
            lemma_reaches_next(self.start(), before, value);
        }
        handle.release_write(value);
        out
    }
}

// ==================== How the calls on a shared value fit together ====================
/// A section that is run through any handle to a shared value finds what
/// sections have made of the value that was shared, and reports what it reports
/// of that.
pub proof fn law_sections_find_what_was_shared<T: Evolving, X: Section<T>>(
    value: T,
    handle: MutArc<T>,
    other: MutArc<T>,
    section: X,
    out: X::Out,
)
    requires
        call_ensures(MutArc::<T>::new, (value,), handle),
        other == handle || call_ensures(<MutArc<T> as Clone>::clone, (&handle,), other),
        call_ensures(<MutArc<T> as SharedCell>::update::<X>, (&other, section), out),
    ensures
        exists|before: T, after: T| #[trigger]
            section.effect(before, after, out) && reaches(value, before),
{
    assert(has_run_since(other.start(), section, out));
}

} // verus!
