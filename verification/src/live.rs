//! The operators at work on the caller's subject, source, scheduler and shared
//! state.
//!
//! Each function here is an operation of [`grace`](crate::grace) or
//! [`ref_count`](crate::ref_count) under a ledger that starts out empty.

use crate::context::{SharedCell, Subscription};
use crate::grace::{GraceCell, GraceTask, RefCountGrace, RefCountGraceSubscription};
use crate::grace_journal::GraceJournal;
use crate::grace_ledger::GraceEvent;
use crate::grace_state::GraceState;
use crate::ref_count::{ConnectionCell, RefCount, RefCountSubscription};
use crate::ref_count_journal::RefCountJournal;
use crate::ref_count_ledger::RefCountEvent;
use crate::scheduler::{Scheduler, Task, TaskState};
use crate::subject::{CoreObservable, Observers, Subject, Subscribers};
use vstd::prelude::*;

verus! {

// ==================== RefCount ====================
impl<Observer, S, P, ConnPtr> CoreObservable<Observer> for RefCount<S, P, ConnPtr> where
    S: CoreObservable<Subject<P>>,
    P: Clone + Observers<Observer>,
    ConnPtr: SharedCell<Target = Option<S::Unsub>>,
 {
    type Unsub = RefCountSubscription<P, P::Unsub, ConnPtr>;

    /// [`RefCount::subscribe_under`] a new journal.
    fn subscribe(self, observer: Observer) -> (subscription: RefCountSubscription<
        P,
        P::Unsub,
        ConnPtr,
    >)
        ensures
            exists|ledger: &mut RefCountJournal<S::Unsub, P::Unsub>|
                {
                    &&& #[trigger] call_ensures(
                        RefCount::<S, P, ConnPtr>::subscribe_under::<
                            Observer,
                            RefCountJournal<S::Unsub, P::Unsub>,
                        >,
                        (self, observer, ledger),
                        subscription,
                    )
                    &&& ledger@ == Seq::<RefCountEvent<S::Unsub, P::Unsub>>::empty()
                },
    {
        let mut journal = RefCountJournal::new();
        self.subscribe_under(observer, &mut journal)
    }
}

impl<P, InnerSub, ConnPtr> Subscription for RefCountSubscription<P, InnerSub, ConnPtr> where
    P: Subscribers,
    InnerSub: Subscription,
    ConnPtr: ConnectionCell,
 {
    /// [`RefCountSubscription::unsubscribe_under`] a new journal.
    fn unsubscribe(self)
        ensures
            exists|ledger: &mut RefCountJournal<ConnPtr::Unsub, InnerSub>|
                {
                    &&& #[trigger] call_ensures(
                        RefCountSubscription::<P, InnerSub, ConnPtr>::unsubscribe_under::<
                            RefCountJournal<ConnPtr::Unsub, InnerSub>,
                        >,
                        (self, ledger),
                        (),
                    )
                    &&& ledger@ == Seq::<RefCountEvent<ConnPtr::Unsub, InnerSub>>::empty()
                },
    {
        let mut journal = RefCountJournal::<ConnPtr::Unsub, InnerSub>::new();
        self.unsubscribe_under(&mut journal);
    }

    /// Whether the subscriber has left the subject.
    fn is_closed(&self) -> (closed: bool)
        ensures
            call_ensures(InnerSub::is_closed, (&self.inner,), closed),
    {
        self.inner.is_closed()
    }
}

// ==================== RefCountGrace ====================
impl<Observer, S, P, StatePtr, Sch> CoreObservable<Observer> for RefCountGrace<
    S,
    P,
    StatePtr,
    Sch,
> where
    S: CoreObservable<Subject<P>>,
    P: Clone + Observers<Observer>,
    StatePtr: Clone + SharedCell<Target = GraceState<S::Unsub, Sch::TaskHandle>>,
    Sch: Scheduler<GraceTask<P, StatePtr>>,
 {
    type Unsub = RefCountGraceSubscription<P, P::Unsub, StatePtr, Sch>;

    /// [`RefCountGrace::subscribe_under`] a new journal.
    fn subscribe(self, observer: Observer) -> (subscription: RefCountGraceSubscription<
        P,
        P::Unsub,
        StatePtr,
        Sch,
    >)
        ensures
            exists|ledger: &mut GraceJournal<S::Unsub, Sch::TaskHandle, P::Unsub>|
                {
                    &&& #[trigger] call_ensures(
                        RefCountGrace::<S, P, StatePtr, Sch>::subscribe_under::<
                            Observer,
                            GraceJournal<S::Unsub, Sch::TaskHandle, P::Unsub>,
                        >,
                        (self, observer, ledger),
                        subscription,
                    )
                    &&& ledger@ == Seq::<
                        GraceEvent<S::Unsub, Sch::TaskHandle, P::Unsub>,
                    >::empty()
                },
    {
        let mut journal = GraceJournal::new();
        self.subscribe_under(observer, &mut journal)
    }
}

impl<P, InnerSub, StatePtr, Sch> Subscription for RefCountGraceSubscription<
    P,
    InnerSub,
    StatePtr,
    Sch,
> where
    P: Subscribers,
    InnerSub: Subscription,
    StatePtr: Clone + GraceCell,
    Sch: Scheduler<GraceTask<P, StatePtr>, TaskHandle = StatePtr::TaskHandle>,
 {
    /// [`RefCountGraceSubscription::unsubscribe_under`] a new journal.
    fn unsubscribe(self)
        ensures
            exists|ledger: &mut GraceJournal<StatePtr::Unsub, StatePtr::TaskHandle, InnerSub>|
                {
                    &&& #[trigger] call_ensures(
                        RefCountGraceSubscription::<
                            P,
                            InnerSub,
                            StatePtr,
                            Sch,
                        >::unsubscribe_under::<
                            GraceJournal<StatePtr::Unsub, StatePtr::TaskHandle, InnerSub>,
                        >,
                        (self, ledger),
                        (),
                    )
                    &&& ledger@ == Seq::<
                        GraceEvent<StatePtr::Unsub, StatePtr::TaskHandle, InnerSub>,
                    >::empty()
                },
    {
        let mut journal = GraceJournal::<StatePtr::Unsub, StatePtr::TaskHandle, InnerSub>::new();
        self.unsubscribe_under(&mut journal);
    }

    /// Whether the subscriber has left the subject.
    fn is_closed(&self) -> (closed: bool)
        ensures
            call_ensures(InnerSub::is_closed, (&self.inner,), closed),
    {
        self.inner.is_closed()
    }
}

/// Handler for an expired grace window, for a scheduler to run after the grace
/// period has elapsed: [`GraceTask::reset_under`] a new journal, once.
pub fn grace_reset_handler<P, StatePtr>(task_state: &mut GraceTask<P, StatePtr>) -> (outcome:
    TaskState) where P: Subscribers, StatePtr: GraceCell
    ensures
        final(task_state).reset_once_since(*old(task_state)),
        outcome == TaskState::Finished,
        exists|
            held: &mut GraceTask<P, StatePtr>,
            ledger: &mut GraceJournal<StatePtr::Unsub, StatePtr::TaskHandle, ()>,
        |
            {
                &&& #[trigger] call_ensures(
                    GraceTask::<P, StatePtr>::reset_under::<
                        GraceJournal<StatePtr::Unsub, StatePtr::TaskHandle, ()>,
                    >,
                    (held, ledger),
                    outcome,
                )
                &&& *held == *old(task_state)
                &&& *final(held) == *final(task_state)
                &&& ledger@ == Seq::<
                    GraceEvent<StatePtr::Unsub, StatePtr::TaskHandle, ()>,
                >::empty()
            },
{
    let mut journal = GraceJournal::<StatePtr::Unsub, StatePtr::TaskHandle, ()>::new();
    task_state.reset_under(&mut journal)
}

impl<P, StatePtr> Task for GraceTask<P, StatePtr> where P: Subscribers, StatePtr: GraceCell {
    /// Runs [`grace_reset_handler`], once.
    fn run(&mut self) -> (outcome: TaskState)
        ensures
            final(self).reset_once_since(*old(self)),
            outcome == TaskState::Finished,
            exists|
                held: &mut GraceTask<P, StatePtr>,
                ledger: &mut GraceJournal<StatePtr::Unsub, StatePtr::TaskHandle, ()>,
            |
                {
                    &&& #[trigger] call_ensures(
                        GraceTask::<P, StatePtr>::reset_under::<
                            GraceJournal<StatePtr::Unsub, StatePtr::TaskHandle, ()>,
                        >,
                        (held, ledger),
                        outcome,
                    )
                    &&& *held == *old(self)
                    &&& *final(held) == *final(self)
                    &&& ledger@ == Seq::<
                        GraceEvent<StatePtr::Unsub, StatePtr::TaskHandle, ()>,
                    >::empty()
                },
    {
        grace_reset_handler(self)
    }
}

} // verus!
