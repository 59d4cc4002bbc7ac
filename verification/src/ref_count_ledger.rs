//! What an operation of [`RefCount`](crate::ref_count::RefCount) can do, and the
//! ledger in which everything that it does is entered.
//!
//! An operation reaches the shared slot, the subject and the source through the
//! ledger that its caller gives it, and in no other way: all that it knows about
//! their types besides is how to clone a handle. Each call enters one event, so
//! what an operation adds to the ledger is all that it has done, in order.

use crate::ref_count::{IsVacant, Store, Take};
use crate::subject::{ConnectableObservable, Subject};
use vstd::prelude::*;

verus! {

/// One thing that an operation does: a section on the shared slot, or a call of
/// the caller's code, together with what it reported.
pub enum RefCountEvent<Unsub, InnerSub> {
    /// The observer joined the subject.
    Joined(InnerSub),
    /// The subject's observers were counted.
    Counted(usize),
    /// The slot was looked into: was it vacant?
    Looked(bool),
    /// The source was subscribed to.
    Connected(Unsub),
    /// A connection was put into the slot.
    Stored(Unsub),
    /// The observer left the subject.
    Left(InnerSub),
    /// The subject was asked whether it is empty.
    Asked(bool),
    /// The slot was cleared.
    Taken(Option<Unsub>),
    /// A connection was ended.
    Ended(Unsub),
}

/// The ending of `connection`, if there is one.
pub open spec fn end_events<Unsub, InnerSub>(connection: Option<Unsub>) -> Seq<
    RefCountEvent<Unsub, InnerSub>,
> {
    match connection {
        Some(inner) => seq![RefCountEvent::Ended(inner)],
        None => seq![],
    }
}

/// What every operation has.
pub trait RefCountLedger: Sized {
    /// The source subscription that the slot keeps.
    type Unsub;

    /// Takes an observer out of the subject's list.
    type InnerSub;

    /// Everything that has been entered.
    spec fn log(&self) -> Seq<RefCountEvent<Self::Unsub, Self::InnerSub>>;
}

/// What a subscriber can do as it arrives.
pub trait RefCountArrival<S, P, ConnPtr, Observer>: RefCountLedger {
    /// `observer` has joined `subject`, and `inner` takes it out again.
    spec fn joined(subject: Subject<P>, observer: Observer, inner: Self::InnerSub) -> bool;

    /// `subject` was asked how many observers it has, and answered `count`.
    spec fn counted(subject: Subject<P>, count: usize) -> bool;

    /// `slot` was looked into, and was vacant or not.
    spec fn looked(slot: ConnPtr, vacant: bool) -> bool;

    /// `connection` comes from connecting `connectable`.
    spec fn connected(
        connectable: ConnectableObservable<S, P>,
        connection: Self::Unsub,
    ) -> bool;

    /// `connection` was put into `slot`.
    spec fn stored(slot: ConnPtr, connection: Self::Unsub) -> bool;

    /// Lets `observer` join `subject`.
    fn join(&mut self, subject: Subject<P>, observer: Observer) -> (inner: Self::InnerSub)
        ensures
            Self::joined(subject, observer, inner),
            final(self).log() == old(self).log().push(RefCountEvent::Joined(inner)),
    ;

    /// Counts the observers of `subject`.
    fn count(&mut self, subject: &Subject<P>) -> (count: usize)
        ensures
            Self::counted(*subject, count),
            final(self).log() == old(self).log().push(RefCountEvent::Counted(count)),
    ;

    /// Looks whether `slot` is vacant.
    fn look(&mut self, slot: &ConnPtr, section: IsVacant) -> (vacant: bool)
        ensures
            Self::looked(*slot, vacant),
            final(self).log() == old(self).log().push(RefCountEvent::Looked(vacant)),
    ;

    /// Connects `connectable`.
    fn connect(&mut self, connectable: ConnectableObservable<S, P>) -> (connection: Self::Unsub)
        ensures
            Self::connected(connectable, connection),
            final(self).log() == old(self).log().push(RefCountEvent::Connected(connection)),
    ;

    /// Puts a connection into `slot`.
    fn store(&mut self, slot: &ConnPtr, section: Store<Self::Unsub>)
        ensures
            Self::stored(*slot, section.connection),
            final(self).log() == old(self).log().push(RefCountEvent::Stored(section.connection)),
    ;
}

/// What a subscriber can do as it leaves.
pub trait RefCountDeparture<P, ConnPtr>: RefCountLedger {
    /// The observer of `inner` has left its subject.
    spec fn left(inner: Self::InnerSub) -> bool;

    /// `subject` was asked whether it is empty, and answered `empty`.
    spec fn asked(subject: Subject<P>, empty: bool) -> bool;

    /// `slot` was cleared, and had held `connection`.
    spec fn taken(slot: ConnPtr, connection: Option<Self::Unsub>) -> bool;

    /// `connection` has been ended.
    spec fn ended(connection: Self::Unsub) -> bool;

    /// Takes an observer out of its subject.
    fn leave(&mut self, inner: Self::InnerSub)
        ensures
            Self::left(inner),
            final(self).log() == old(self).log().push(RefCountEvent::Left(inner)),
    ;

    /// Asks `subject` whether it is empty.
    fn ask(&mut self, subject: &Subject<P>) -> (empty: bool)
        ensures
            Self::asked(*subject, empty),
            final(self).log() == old(self).log().push(RefCountEvent::Asked(empty)),
    ;

    /// Clears `slot`.
    fn take(&mut self, slot: &ConnPtr, section: Take) -> (connection: Option<Self::Unsub>)
        ensures
            Self::taken(*slot, connection),
            final(self).log() == old(self).log().push(RefCountEvent::Taken(connection)),
    ;

    /// Ends `connection`.
    fn end(&mut self, connection: Self::Unsub)
        ensures
            Self::ended(connection),
            final(self).log() == old(self).log().push(RefCountEvent::Ended(connection)),
    ;
}

} // verus!
