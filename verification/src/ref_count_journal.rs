//! The ledger of an operation of [`RefCount`](crate::ref_count::RefCount) that
//! works on the caller's subject, source and shared slot.
//!
//! Every method makes one call. Those that change something spend a value that
//! they cannot make themselves: a section, an observer, a source or a
//! connection.

use crate::context::{unsubscribed, updated, SharedCell, Subscription};
use crate::ref_count::{IsVacant, Store, Take};
use crate::ref_count_ledger::{RefCountArrival, RefCountDeparture, RefCountEvent, RefCountLedger};
use crate::subject::{ConnectableObservable, CoreObservable, Observers, Subject, Subscribers};
use vstd::prelude::*;

verus! {

/// What has been done so far. It exists in proofs only.
pub struct RefCountJournal<Unsub, InnerSub> {
    events: Ghost<Seq<RefCountEvent<Unsub, InnerSub>>>,
}

impl<Unsub, InnerSub> View for RefCountJournal<Unsub, InnerSub> {
    type V = Seq<RefCountEvent<Unsub, InnerSub>>;

    closed spec fn view(&self) -> Seq<RefCountEvent<Unsub, InnerSub>> {
        self.events@
    }
}

impl<Unsub, InnerSub> RefCountJournal<Unsub, InnerSub> {
    /// Nothing done yet.
    pub fn new() -> (journal: Self)
        ensures
            journal@ == Seq::<RefCountEvent<Unsub, InnerSub>>::empty(),
    {
        RefCountJournal { events: Ghost(Seq::empty()) }
    }
}

impl<Unsub, InnerSub> RefCountLedger for RefCountJournal<Unsub, InnerSub> {
    type Unsub = Unsub;

    type InnerSub = InnerSub;

    open spec fn log(&self) -> Seq<RefCountEvent<Unsub, InnerSub>> {
        self@
    }
}

impl<S, P, ConnPtr, Observer, Unsub, InnerSub> RefCountArrival<
    S,
    P,
    ConnPtr,
    Observer,
> for RefCountJournal<Unsub, InnerSub> where
    S: CoreObservable<Subject<P>, Unsub = Unsub>,
    P: Observers<Observer, Unsub = InnerSub>,
    ConnPtr: SharedCell<Target = Option<Unsub>>,
 {
    open spec fn joined(subject: Subject<P>, observer: Observer, inner: InnerSub) -> bool {
        crate::subject::joined(subject, observer, inner)
    }

    open spec fn counted(subject: Subject<P>, count: usize) -> bool {
        crate::subject::counted(subject, count)
    }

    open spec fn looked(slot: ConnPtr, vacant: bool) -> bool {
        updated(slot, IsVacant, vacant)
    }

    open spec fn connected(connectable: ConnectableObservable<S, P>, connection: Unsub) -> bool {
        crate::subject::connected(connectable, connection)
    }

    open spec fn stored(slot: ConnPtr, connection: Unsub) -> bool {
        updated(slot, (Store { connection }), ())
    }

    fn join(&mut self, subject: Subject<P>, observer: Observer) -> (inner: InnerSub) {
        let inner = subject.subscribe(observer);
        self.events = Ghost(self.events@.push(RefCountEvent::Joined(inner)));
        inner
    }

    fn count(&mut self, subject: &Subject<P>) -> (count: usize) {
        let count: usize = subject.subscriber_count();
        self.events = Ghost(self.events@.push(RefCountEvent::Counted(count)));
        count
    }

    fn look(&mut self, slot: &ConnPtr, section: IsVacant) -> (vacant: bool) {
        let vacant = slot.update(section);
        assert(updated(*slot, section, vacant));
        self.events = Ghost(self.events@.push(RefCountEvent::Looked(vacant)));
        vacant
    }

    fn connect(&mut self, connectable: ConnectableObservable<S, P>) -> (connection: Unsub) {
        let connection = connectable.connect();
        self.events = Ghost(self.events@.push(RefCountEvent::Connected(connection)));
        connection
    }

    fn store(&mut self, slot: &ConnPtr, section: Store<Unsub>) {
        let ghost given = section;
        slot.update(section);
        assert(updated(*slot, given, ()));
        self.events = Ghost(self.events@.push(RefCountEvent::Stored(given.connection)));
    }
}

impl<P, ConnPtr, Unsub, InnerSub> RefCountDeparture<P, ConnPtr> for RefCountJournal<
    Unsub,
    InnerSub,
> where
    P: Subscribers,
    ConnPtr: SharedCell<Target = Option<Unsub>>,
    Unsub: Subscription,
    InnerSub: Subscription,
 {
    open spec fn left(inner: InnerSub) -> bool {
        unsubscribed(inner)
    }

    open spec fn asked(subject: Subject<P>, empty: bool) -> bool {
        crate::subject::found_empty(subject, empty)
    }

    open spec fn taken(slot: ConnPtr, connection: Option<Unsub>) -> bool {
        exists|section: Take| #[trigger] updated(slot, section, connection)
    }

    open spec fn ended(connection: Unsub) -> bool {
        unsubscribed(connection)
    }

    fn leave(&mut self, inner: InnerSub) {
        self.events = Ghost(self.events@.push(RefCountEvent::Left(inner)));
        inner.unsubscribe();
    }

    fn ask(&mut self, subject: &Subject<P>) -> (empty: bool) {
        let empty = subject.is_empty();
        self.events = Ghost(self.events@.push(RefCountEvent::Asked(empty)));
        empty
    }

    fn take(&mut self, slot: &ConnPtr, section: Take) -> (connection: Option<Unsub>) {
        let ghost given = section;
        let connection = slot.update(section);
        assert(updated(*slot, given, connection));
        self.events = Ghost(self.events@.push(RefCountEvent::Taken(connection)));
        connection
    }

    fn end(&mut self, connection: Unsub) {
        self.events = Ghost(self.events@.push(RefCountEvent::Ended(connection)));
        connection.unsubscribe();
    }
}

} // verus!
