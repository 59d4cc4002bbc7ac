//! What an operation of [`RefCountGrace`](crate::grace::RefCountGrace) can do,
//! and the ledger in which everything that it does is entered.
//!
//! An operation reaches the shared state, the subject, the source and the
//! scheduler through the ledger that its caller gives it, and in no other way:
//! all that it knows about their types besides is how to clone a handle. Each
//! call enters one event, so what an operation adds to the ledger is all that it
//! has done, in order.

use crate::grace::{Arrive, Disconnect, Expire, GraceTask, KeepTimer, OpenWindow, Park};
use crate::grace_state::Arrival;
use crate::scheduler::Duration;
use crate::subject::{ConnectableObservable, Subject};
use vstd::prelude::*;

verus! {

/// One thing that an operation does: a section on the shared state, or a call
/// of the caller's code, together with what it reported.
#[allow(inconsistent_fields)]
pub enum GraceEvent<Unsub, TaskHandle, InnerSub> {
    /// The state was told that a subscriber arrives.
    Arrived(Arrival<TaskHandle>),
    /// A timer was cancelled.
    Cancelled(TaskHandle),
    /// The observer joined the subject.
    Joined(InnerSub),
    /// The source was subscribed to.
    Connected(Unsub),
    /// The state was offered a connection.
    Parked { epoch: usize, connection: Unsub, redundant: Option<Unsub> },
    /// A connection was ended.
    Ended(Unsub),
    /// The observer left the subject.
    Left(InnerSub),
    /// The subject was asked whether it is empty.
    Asked(bool),
    /// The state let the source go.
    LetGo { pending: Option<TaskHandle>, connection: Option<Unsub> },
    /// The state opened a window.
    Opened { epoch: usize },
    /// The reset of a window was given to the scheduler.
    Scheduled { epoch: usize, handle: TaskHandle },
    /// The state was offered a timer.
    Kept { epoch: usize, handle: TaskHandle, stale: Option<TaskHandle> },
    /// The state was told that a window has expired.
    Expired { epoch: usize, connection: Option<Unsub> },
}

/// The cancelling of `handle`, if there is one.
pub open spec fn cancel_events<Unsub, TaskHandle, InnerSub>(handle: Option<TaskHandle>) -> Seq<
    GraceEvent<Unsub, TaskHandle, InnerSub>,
> {
    match handle {
        Some(inner) => seq![GraceEvent::Cancelled(inner)],
        None => seq![],
    }
}

/// The ending of `connection`, if there is one.
pub open spec fn end_events<Unsub, TaskHandle, InnerSub>(connection: Option<Unsub>) -> Seq<
    GraceEvent<Unsub, TaskHandle, InnerSub>,
> {
    match connection {
        Some(inner) => seq![GraceEvent::Ended(inner)],
        None => seq![],
    }
}

/// What every operation can do.
pub trait GraceLedger: Sized {
    /// The source subscription that the state keeps.
    type Unsub;

    /// The timer that the state keeps.
    type TaskHandle;

    /// Takes an observer out of the subject's list.
    type InnerSub;

    /// Everything that has been entered.
    spec fn log(&self) -> Seq<GraceEvent<Self::Unsub, Self::TaskHandle, Self::InnerSub>>;

    /// `handle` has been cancelled.
    spec fn cancelled(handle: Self::TaskHandle) -> bool;

    /// `connection` has been ended.
    spec fn ended(connection: Self::Unsub) -> bool;

    /// Cancels `handle`.
    fn cancel(&mut self, handle: Self::TaskHandle)
        ensures
            Self::cancelled(handle),
            final(self).log() == old(self).log().push(GraceEvent::Cancelled(handle)),
    ;

    /// Ends `connection`.
    fn end(&mut self, connection: Self::Unsub)
        ensures
            Self::ended(connection),
            final(self).log() == old(self).log().push(GraceEvent::Ended(connection)),
    ;
}

/// `handle`, if there is one, has been cancelled.
pub open spec fn all_cancelled<L: GraceLedger>(handle: Option<L::TaskHandle>) -> bool {
    handle matches Some(inner) ==> L::cancelled(inner)
}

/// `connection`, if there is one, has been ended.
pub open spec fn all_ended<L: GraceLedger>(connection: Option<L::Unsub>) -> bool {
    connection matches Some(inner) ==> L::ended(inner)
}

/// What a subscriber can do as it arrives.
pub trait GraceArrival<S, P, StatePtr, Observer>: GraceLedger {
    /// `state` was told that a subscriber arrives, and answered `arrival`.
    spec fn arrived(state: StatePtr, arrival: Arrival<Self::TaskHandle>) -> bool;

    /// `observer` has joined `subject`, and `inner` takes it out again.
    spec fn joined(subject: Subject<P>, observer: Observer, inner: Self::InnerSub) -> bool;

    /// `connection` comes from connecting `connectable`.
    spec fn connected(
        connectable: ConnectableObservable<S, P>,
        connection: Self::Unsub,
    ) -> bool;

    /// `state` was offered `connection` for the arrival at `epoch`, and handed
    /// back `redundant`.
    spec fn parked(
        state: StatePtr,
        epoch: usize,
        connection: Self::Unsub,
        redundant: Option<Self::Unsub>,
    ) -> bool;

    /// Tells `state` that a subscriber arrives.
    fn arrive(&mut self, state: &StatePtr, section: Arrive) -> (arrival: Arrival<Self::TaskHandle>)
        ensures
            Self::arrived(*state, arrival),
            final(self).log() == old(self).log().push(GraceEvent::Arrived(arrival)),
    ;

    /// Lets `observer` join `subject`.
    fn join(&mut self, subject: Subject<P>, observer: Observer) -> (inner: Self::InnerSub)
        ensures
            Self::joined(subject, observer, inner),
            final(self).log() == old(self).log().push(GraceEvent::Joined(inner)),
    ;

    /// Connects `connectable`.
    fn connect(&mut self, connectable: ConnectableObservable<S, P>) -> (connection: Self::Unsub)
        ensures
            Self::connected(connectable, connection),
            final(self).log() == old(self).log().push(GraceEvent::Connected(connection)),
    ;

    /// Offers a connection to `state`.
    fn park(&mut self, state: &StatePtr, section: Park<Self::Unsub>) -> (redundant: Option<
        Self::Unsub,
    >)
        ensures
            Self::parked(*state, section.epoch, section.connection, redundant),
            final(self).log() == old(self).log().push(
                (GraceEvent::Parked {
                    epoch: section.epoch,
                    connection: section.connection,
                    redundant,
                }),
            ),
    ;
}

/// What a subscriber can do as it leaves.
pub trait GraceDeparture<P, StatePtr, Sch>: GraceLedger {
    /// The observer of `inner` has left its subject.
    spec fn left(inner: Self::InnerSub) -> bool;

    /// `subject` was asked whether it is empty, and answered `empty`.
    spec fn asked(subject: Subject<P>, empty: bool) -> bool;

    /// `state` let the source go, and handed out `pending` and `connection`.
    spec fn let_go_of(
        state: StatePtr,
        pending: Option<Self::TaskHandle>,
        connection: Option<Self::Unsub>,
    ) -> bool;

    /// `state` opened a window at `epoch`.
    spec fn opened(state: StatePtr, epoch: usize) -> bool;

    /// `task` was given to `scheduler`, to run after `delay`, and `handle` is
    /// its timer.
    spec fn scheduled(
        scheduler: Sch,
        task: GraceTask<P, StatePtr>,
        delay: Duration,
        handle: Self::TaskHandle,
    ) -> bool;

    /// `state` was offered the timer of the window that opened at `epoch`, and
    /// handed back `stale`.
    spec fn kept(
        state: StatePtr,
        epoch: usize,
        handle: Self::TaskHandle,
        stale: Option<Self::TaskHandle>,
    ) -> bool;

    /// Takes an observer out of its subject.
    fn leave(&mut self, inner: Self::InnerSub)
        ensures
            Self::left(inner),
            final(self).log() == old(self).log().push(GraceEvent::Left(inner)),
    ;

    /// Asks `subject` whether it is empty.
    fn ask(&mut self, subject: &Subject<P>) -> (empty: bool)
        ensures
            Self::asked(*subject, empty),
            final(self).log() == old(self).log().push(GraceEvent::Asked(empty)),
    ;

    /// Lets the source go in `state`.
    fn let_go(&mut self, state: &StatePtr, section: Disconnect) -> (parts: (
        Option<Self::TaskHandle>,
        Option<Self::Unsub>,
    ))
        ensures
            Self::let_go_of(*state, parts.0, parts.1),
            final(self).log() == old(self).log().push(
                (GraceEvent::LetGo { pending: parts.0, connection: parts.1 }),
            ),
    ;

    /// Opens a window in `state`.
    fn open(&mut self, state: &StatePtr, section: OpenWindow) -> (epoch: usize)
        ensures
            Self::opened(*state, epoch),
            final(self).log() == old(self).log().push((GraceEvent::Opened { epoch })),
    ;

    /// Gives `task` to `scheduler`.
    fn schedule(&mut self, scheduler: &Sch, task: GraceTask<P, StatePtr>, delay: Duration) -> (handle:
        Self::TaskHandle)
        ensures
            Self::scheduled(*scheduler, task, delay, handle),
            final(self).log() == old(self).log().push(
                (GraceEvent::Scheduled { epoch: task.epoch(), handle }),
            ),
    ;

    /// Offers a timer to `state`.
    fn keep(&mut self, state: &StatePtr, section: KeepTimer<Self::TaskHandle>) -> (stale: Option<
        Self::TaskHandle,
    >)
        ensures
            Self::kept(*state, section.epoch, section.handle, stale),
            final(self).log() == old(self).log().push(
                (GraceEvent::Kept { epoch: section.epoch, handle: section.handle, stale }),
            ),
    ;
}

/// What a reset can do.
pub trait GraceReset<P, StatePtr>: GraceLedger {
    /// `state` was told that the window that opened at `epoch` has expired,
    /// could ask `subject` whether it is empty, and handed out `connection`.
    spec fn expired(
        state: StatePtr,
        epoch: usize,
        subject: Subject<P>,
        connection: Option<Self::Unsub>,
    ) -> bool;

    /// Tells `state` that a window has expired.
    fn expire(&mut self, state: &StatePtr, section: Expire<P>) -> (connection: Option<Self::Unsub>)
        ensures
            Self::expired(*state, section.epoch(), section.subject(), connection),
            final(self).log() == old(self).log().push(
                (GraceEvent::Expired { epoch: section.epoch(), connection }),
            ),
    ;
}

} // verus!
