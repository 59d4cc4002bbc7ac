//! [`RefCount`]: the source is connected while it has subscribers.

use crate::context::{Evolving, Section, SharedCell, Subscription};
use crate::ref_count_ledger::{end_events, RefCountArrival, RefCountDeparture, RefCountEvent};
use crate::subject::{ConnectableObservable, Subject};
use vstd::prelude::*;

verus! {

// ==================== Sections on the shared slot ====================
// Only the operations in this module can make a section that clears the slot.
impl<Unsub> Evolving for Option<Unsub> {
    /// A slot may be left alone, filled, filled anew and cleared.
    open spec fn evolves(before: Self, after: Self) -> bool {
        true
    }
}

/// Looks whether the slot is free of a connection.
pub struct IsVacant;

impl<Unsub> Section<Option<Unsub>> for IsVacant {
    type Out = bool;

    open spec fn effect(self, before: Option<Unsub>, after: Option<Unsub>, out: bool) -> bool {
        after == before && out == (before is None)
    }

    proof fn effect_evolves(self, before: Option<Unsub>, after: Option<Unsub>, out: bool) {
    }

    fn run(self, state: &mut Option<Unsub>) -> (out: bool) {
        state.is_none()
    }
}

/// Puts a connection into the slot. Whatever the slot held before is dropped.
pub struct Store<Unsub> {
    /// The connection to keep.
    pub connection: Unsub,
}

impl<Unsub> Section<Option<Unsub>> for Store<Unsub> {
    type Out = ();

    open spec fn effect(self, before: Option<Unsub>, after: Option<Unsub>, out: ()) -> bool {
        after == Some(self.connection)
    }

    proof fn effect_evolves(self, before: Option<Unsub>, after: Option<Unsub>, out: ()) {
    }

    fn run(self, state: &mut Option<Unsub>) -> (out: ()) {
        *state = Some(self.connection);
    }
}

/// Takes the connection out of the slot.
pub struct Take(());

impl<Unsub> Section<Option<Unsub>> for Take {
    type Out = Option<Unsub>;

    open spec fn effect(
        self,
        before: Option<Unsub>,
        after: Option<Unsub>,
        out: Option<Unsub>,
    ) -> bool {
        after is None && out == before
    }

    proof fn effect_evolves(self, before: Option<Unsub>, after: Option<Unsub>, out: Option<Unsub>) {
    }

    fn run(self, state: &mut Option<Unsub>) -> (out: Option<Unsub>) {
        state.take()
    }
}

// ==================== The operator ====================
/// A handle to the slot of a [`RefCount`].
pub trait ConnectionCell: SharedCell<Target = Option<Self::Unsub>> {
    /// The source subscription that the slot keeps.
    type Unsub: Subscription;
}

impl<Unsub, C> ConnectionCell for C where Unsub: Subscription, C: SharedCell<Target = Option<Unsub>> {
    type Unsub = Unsub;
}

/// Wraps a `ConnectableObservable` and manages connection based on subscriber
/// count.
///
/// Uses the subject's own subscriber list instead of a separate counter.
pub struct RefCount<S, P, ConnPtr> {
    /// The source and the subject that shares it.
    pub connectable: ConnectableObservable<S, P>,
    /// The slot for the live source subscription, shared with every clone and
    /// every subscription.
    pub connection: ConnPtr,
}

impl<S: Clone, P: Clone, ConnPtr: Clone> Clone for RefCount<S, P, ConnPtr> {
    /// The same operator once more, on the same source and slot.
    fn clone(&self) -> (operator: Self)
        ensures
            cloned(self.connectable.source, operator.connectable.source),
            cloned(self.connectable.subject.observers, operator.connectable.subject.observers),
            cloned(self.connection, operator.connection),
    {
        RefCount { connectable: self.connectable.clone(), connection: self.connection.clone() }
    }
}

/// Subscription for [`RefCount`]. Disconnects the source when the last
/// subscriber leaves.
pub struct RefCountSubscription<P, InnerSub, ConnPtr> {
    /// The subject that the subscriber joined.
    pub subject: Subject<P>,
    /// Takes the subscriber out of the subject's list.
    pub inner: InnerSub,
    /// The slot shared with the operator.
    pub connection: ConnPtr,
}

// ==================== Arriving ====================
/// How an arrival goes on after the observer has joined.
pub enum Connecting<Unsub> {
    /// It finds this many observers, not one, and is done.
    Shared(usize),
    /// It is alone, but finds a connection in the slot, and is done.
    Occupied,
    /// It is alone and finds the slot vacant, so it makes this connection.
    Made(Unsub),
}

/// What a subscriber does, in order: it joins the subject and counts the
/// observers; if it is alone, it looks into the slot; if that is vacant, it
/// connects the source and keeps the connection there.
pub open spec fn subscribe_events<Unsub, InnerSub>(
    inner: InnerSub,
    connecting: Connecting<Unsub>,
) -> Seq<RefCountEvent<Unsub, InnerSub>> {
    match connecting {
        Connecting::Shared(count) => seq![
            RefCountEvent::Joined(inner),
            RefCountEvent::Counted(count),
        ],
        Connecting::Occupied => seq![
            RefCountEvent::Joined(inner),
            RefCountEvent::Counted(1),
            RefCountEvent::Looked(false),
        ],
        Connecting::Made(connection) => seq![
            RefCountEvent::Joined(inner),
            RefCountEvent::Counted(1),
            RefCountEvent::Looked(true),
            RefCountEvent::Connected(connection),
            RefCountEvent::Stored(connection),
        ],
    }
}

/// A subscriber of `subject` has gone on as `connecting` says.
pub open spec fn went_on<S, P, ConnPtr, Observer, L>(
    connectable: ConnectableObservable<S, P>,
    subject: Subject<P>,
    slot: ConnPtr,
    connecting: Connecting<L::Unsub>,
) -> bool where L: RefCountArrival<S, P, ConnPtr, Observer> {
    match connecting {
        Connecting::Shared(count) => L::counted(subject, count) && count != 1,
        Connecting::Occupied => L::counted(subject, 1) && L::looked(slot, false),
        Connecting::Made(connection) => {
            &&& L::counted(subject, 1)
            &&& L::looked(slot, true)
            &&& L::connected(connectable, connection)
            &&& L::stored(slot, connection)
        },
    }
}

/// `observer` has joined a clone of `subject`, and `inner` takes it out again.
pub open spec fn joined_clone<S, P, ConnPtr, Observer, L>(
    subject: Subject<P>,
    observer: Observer,
    inner: L::InnerSub,
) -> bool where P: Clone, L: RefCountArrival<S, P, ConnPtr, Observer> {
    exists|member: Subject<P>|
        cloned(subject.observers, member.observers) && #[trigger] L::joined(
            member,
            observer,
            inner,
        )
}

/// `events` are all that a subscriber does that joins `subject` as `inner`.
pub open spec fn subscribed_by<S, P, ConnPtr, Observer, L>(
    connectable: ConnectableObservable<S, P>,
    subject: Subject<P>,
    slot: ConnPtr,
    inner: L::InnerSub,
    events: Seq<RefCountEvent<L::Unsub, L::InnerSub>>,
) -> bool where L: RefCountArrival<S, P, ConnPtr, Observer> {
    exists|connecting: Connecting<L::Unsub>| #[trigger]
        went_on::<S, P, ConnPtr, Observer, L>(connectable, subject, slot, connecting) && events
            == subscribe_events(inner, connecting)
}

impl<S, P, ConnPtr> RefCount<S, P, ConnPtr> {
    /// Lets `observer` receive the items of the shared source, and enters all
    /// that this takes in `ledger`. Connects the source if `observer` is the
    /// only subscriber and nothing is connected.
    pub fn subscribe_under<Observer, L>(self, observer: Observer, ledger: &mut L) -> (subscription:
        RefCountSubscription<P, L::InnerSub, ConnPtr>) where
        P: Clone,
        L: RefCountArrival<S, P, ConnPtr, Observer>,

        ensures
            subscription.connection == self.connection,
            cloned(self.connectable.subject.observers, subscription.subject.observers),
            joined_clone::<S, P, ConnPtr, Observer, L>(
                subscription.subject,
                observer,
                subscription.inner,
            ),
            exists|events: Seq<RefCountEvent<L::Unsub, L::InnerSub>>|
                {
                    &&& #[trigger] subscribed_by::<S, P, ConnPtr, Observer, L>(
                        self.connectable,
                        subscription.subject,
                        self.connection,
                        subscription.inner,
                        events,
                    )
                    &&& final(ledger).log() == old(ledger).log() + events
                },
    {
        let RefCount { connectable, connection } = self;
        let subject = connectable.fork();
        let inner = ledger.join(subject.clone(), observer);
        assert(joined_clone::<S, P, ConnPtr, Observer, L>(subject, observer, inner));

        let count: usize = ledger.count(&subject);
        let ghost mut connecting: Connecting<L::Unsub> = Connecting::Shared(count);
        if count == 1 {
            proof {
                connecting = Connecting::Occupied;
            }
            if ledger.look(&connection, IsVacant) {
                let made = ledger.connect(connectable);
                proof {
                    connecting = Connecting::Made(made);
                }
                ledger.store(&connection, Store { connection: made });
            }
        }
        let ghost events = subscribe_events(inner, connecting);
        assert(went_on::<S, P, ConnPtr, Observer, L>(
            self.connectable,
            subject,
            connection,
            connecting,
        ));
        assert(ledger.log() =~= old(ledger).log() + events);
        let subscription = RefCountSubscription { subject, inner, connection };
        assert(subscribed_by::<S, P, ConnPtr, Observer, L>(
            self.connectable,
            subscription.subject,
            self.connection,
            subscription.inner,
            events,
        ));
        subscription
    }
}

// ==================== Leaving ====================
/// What a departure does when others remain: it leaves and finds the subject
/// in use.
pub open spec fn stay_events<Unsub, InnerSub>(inner: InnerSub) -> Seq<
    RefCountEvent<Unsub, InnerSub>,
> {
    seq![RefCountEvent::Left(inner), RefCountEvent::Asked(false)]
}

/// What the last departure does: it clears the slot and ends the connection.
pub open spec fn take_events<Unsub, InnerSub>(inner: InnerSub, connection: Option<Unsub>) -> Seq<
    RefCountEvent<Unsub, InnerSub>,
> {
    seq![RefCountEvent::Left(inner), RefCountEvent::Asked(true), RefCountEvent::Taken(connection)]
        + end_events(connection)
}

/// `slot` has been cleared, and the connection that it held has been ended.
pub open spec fn disconnected<P, ConnPtr, L>(
    slot: ConnPtr,
    connection: Option<L::Unsub>,
) -> bool where L: RefCountDeparture<P, ConnPtr> {
    &&& L::taken(slot, connection)
    &&& connection matches Some(inner) ==> L::ended(inner)
}

/// `events` are all that the departure of `subscription` does.
pub open spec fn left_by<P, ConnPtr, L>(
    subscription: RefCountSubscription<P, L::InnerSub, ConnPtr>,
    events: Seq<RefCountEvent<L::Unsub, L::InnerSub>>,
) -> bool where L: RefCountDeparture<P, ConnPtr> {
    let RefCountSubscription { subject, inner, connection: slot } = subscription;
    &&& L::left(inner)
    &&& exists|subject_empty: bool| #[trigger]
        L::asked(subject, subject_empty) && if subject_empty {
            exists|connection: Option<L::Unsub>| #[trigger]
                disconnected::<P, ConnPtr, L>(slot, connection) && events == take_events(
                    inner,
                    connection,
                )
        } else {
            events == stay_events::<L::Unsub, L::InnerSub>(inner)
        }
}

impl<P, InnerSub, ConnPtr> RefCountSubscription<P, InnerSub, ConnPtr> {
    /// Leaves the subject, and enters all that this takes in `ledger`.
    /// Disconnects the source if nobody is left.
    pub fn unsubscribe_under<L>(self, ledger: &mut L) where
        L: RefCountDeparture<P, ConnPtr, InnerSub = InnerSub>,

        ensures
            exists|events: Seq<RefCountEvent<L::Unsub, InnerSub>>|
                {
                    &&& #[trigger] left_by::<P, ConnPtr, L>(self, events)
                    &&& final(ledger).log() == old(ledger).log() + events
                },
    {
        let RefCountSubscription { subject, inner, connection } = self;
        let ghost member = inner;
        let ghost mut events = stay_events::<L::Unsub, InnerSub>(member);
        ledger.leave(inner);
        let subject_empty = ledger.ask(&subject);
        assert(L::asked(self.subject, subject_empty));
        if subject_empty {
            let taken = ledger.take(&connection, Take(()));
            let ghost back = taken;
            proof {
                events = take_events(member, back);
            }
            match taken {
                Some(made) => ledger.end(made),
                None => {},
            }
            assert(disconnected::<P, ConnPtr, L>(connection, back));
        }
        assert(left_by::<P, ConnPtr, L>(self, events));
        assert(ledger.log() =~= old(ledger).log() + events);
    }
}

} // verus!
