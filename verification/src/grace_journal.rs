//! The ledger of an operation of
//! [`RefCountGrace`](crate::grace::RefCountGrace) that works on the caller's
//! subject, source, scheduler and shared state.
//!
//! Every method makes one call. Those that change something spend a value that
//! they cannot make themselves: a section, an observer, a source, a task, a
//! connection or a timer.

use crate::context::{unsubscribed, updated, SharedCell, Subscription};
use crate::grace::{Arrive, Disconnect, Expire, GraceTask, KeepTimer, OpenWindow, Park};
use crate::grace_ledger::{
    GraceArrival, GraceDeparture, GraceEvent, GraceLedger, GraceReset,
};
use crate::grace_state::{Arrival, GraceState};
use crate::scheduler::{Duration, Scheduler};
use crate::subject::{ConnectableObservable, CoreObservable, Observers, Subject, Subscribers};
use vstd::prelude::*;

verus! {

/// What has been done so far. It exists in proofs only.
pub struct GraceJournal<Unsub, TaskHandle, InnerSub> {
    events: Ghost<Seq<GraceEvent<Unsub, TaskHandle, InnerSub>>>,
}

impl<Unsub, TaskHandle, InnerSub> View for GraceJournal<Unsub, TaskHandle, InnerSub> {
    type V = Seq<GraceEvent<Unsub, TaskHandle, InnerSub>>;

    closed spec fn view(&self) -> Seq<GraceEvent<Unsub, TaskHandle, InnerSub>> {
        self.events@
    }
}

impl<Unsub, TaskHandle, InnerSub> GraceJournal<Unsub, TaskHandle, InnerSub> {
    /// Nothing done yet.
    pub fn new() -> (journal: Self)
        ensures
            journal@ == Seq::<GraceEvent<Unsub, TaskHandle, InnerSub>>::empty(),
    {
        GraceJournal { events: Ghost(Seq::empty()) }
    }
}

impl<Unsub, TaskHandle, InnerSub> GraceLedger for GraceJournal<Unsub, TaskHandle, InnerSub> where
    Unsub: Subscription,
    TaskHandle: Subscription,
 {
    type Unsub = Unsub;

    type TaskHandle = TaskHandle;

    type InnerSub = InnerSub;

    open spec fn log(&self) -> Seq<GraceEvent<Unsub, TaskHandle, InnerSub>> {
        self@
    }

    open spec fn cancelled(handle: TaskHandle) -> bool {
        unsubscribed(handle)
    }

    open spec fn ended(connection: Unsub) -> bool {
        unsubscribed(connection)
    }

    fn cancel(&mut self, handle: TaskHandle) {
        self.events = Ghost(self.events@.push(GraceEvent::Cancelled(handle)));
        handle.unsubscribe();
    }

    fn end(&mut self, connection: Unsub) {
        self.events = Ghost(self.events@.push(GraceEvent::Ended(connection)));
        connection.unsubscribe();
    }
}

impl<S, P, StatePtr, Observer, Unsub, TaskHandle, InnerSub> GraceArrival<
    S,
    P,
    StatePtr,
    Observer,
> for GraceJournal<Unsub, TaskHandle, InnerSub> where
    S: CoreObservable<Subject<P>, Unsub = Unsub>,
    P: Observers<Observer, Unsub = InnerSub>,
    StatePtr: SharedCell<Target = GraceState<Unsub, TaskHandle>>,
    Unsub: Subscription,
    TaskHandle: Subscription,
 {
    open spec fn arrived(state: StatePtr, arrival: Arrival<TaskHandle>) -> bool {
        exists|section: Arrive| #[trigger] updated(state, section, arrival)
    }

    open spec fn joined(subject: Subject<P>, observer: Observer, inner: InnerSub) -> bool {
        crate::subject::joined(subject, observer, inner)
    }

    open spec fn connected(connectable: ConnectableObservable<S, P>, connection: Unsub) -> bool {
        crate::subject::connected(connectable, connection)
    }

    open spec fn parked(
        state: StatePtr,
        epoch: usize,
        connection: Unsub,
        redundant: Option<Unsub>,
    ) -> bool {
        updated(state, (Park { epoch, connection }), redundant)
    }

    fn arrive(&mut self, state: &StatePtr, section: Arrive) -> (arrival: Arrival<TaskHandle>) {
        let ghost given = section;
        let arrival = state.update(section);
        assert(updated(*state, given, arrival));
        self.events = Ghost(self.events@.push(GraceEvent::Arrived(arrival)));
        arrival
    }

    fn join(&mut self, subject: Subject<P>, observer: Observer) -> (inner: InnerSub) {
        let inner = subject.subscribe(observer);
        self.events = Ghost(self.events@.push(GraceEvent::Joined(inner)));
        inner
    }

    fn connect(&mut self, connectable: ConnectableObservable<S, P>) -> (connection: Unsub) {
        let connection = connectable.connect();
        self.events = Ghost(self.events@.push(GraceEvent::Connected(connection)));
        connection
    }

    fn park(&mut self, state: &StatePtr, section: Park<Unsub>) -> (redundant: Option<Unsub>) {
        let ghost given = section;
        let redundant = state.update(section);
        assert(updated(*state, given, redundant));
        self.events = Ghost(
            self.events@.push(
                GraceEvent::Parked {
                    epoch: given.epoch,
                    connection: given.connection,
                    redundant,
                },
            ),
        );
        redundant
    }
}

impl<P, StatePtr, Sch, Unsub, TaskHandle, InnerSub> GraceDeparture<
    P,
    StatePtr,
    Sch,
> for GraceJournal<Unsub, TaskHandle, InnerSub> where
    P: Subscribers,
    StatePtr: SharedCell<Target = GraceState<Unsub, TaskHandle>>,
    Sch: Scheduler<GraceTask<P, StatePtr>, TaskHandle = TaskHandle>,
    Unsub: Subscription,
    TaskHandle: Subscription,
    InnerSub: Subscription,
 {
    open spec fn left(inner: InnerSub) -> bool {
        unsubscribed(inner)
    }

    open spec fn asked(subject: Subject<P>, empty: bool) -> bool {
        crate::subject::found_empty(subject, empty)
    }

    open spec fn let_go_of(
        state: StatePtr,
        pending: Option<TaskHandle>,
        connection: Option<Unsub>,
    ) -> bool {
        exists|section: Disconnect| #[trigger] updated(state, section, (pending, connection))
    }

    open spec fn opened(state: StatePtr, epoch: usize) -> bool {
        exists|section: OpenWindow| #[trigger] updated(state, section, epoch)
    }

    open spec fn scheduled(
        scheduler: Sch,
        task: GraceTask<P, StatePtr>,
        delay: Duration,
        handle: TaskHandle,
    ) -> bool {
        crate::scheduler::scheduled(scheduler, task, Some(delay), handle)
    }

    open spec fn kept(
        state: StatePtr,
        epoch: usize,
        handle: TaskHandle,
        stale: Option<TaskHandle>,
    ) -> bool {
        updated(state, (KeepTimer { epoch, handle }), stale)
    }

    fn leave(&mut self, inner: InnerSub) {
        self.events = Ghost(self.events@.push(GraceEvent::Left(inner)));
        inner.unsubscribe();
    }

    fn ask(&mut self, subject: &Subject<P>) -> (empty: bool) {
        let empty = subject.is_empty();
        self.events = Ghost(self.events@.push(GraceEvent::Asked(empty)));
        empty
    }

    fn let_go(&mut self, state: &StatePtr, section: Disconnect) -> (parts: (
        Option<TaskHandle>,
        Option<Unsub>,
    )) {
        let ghost given = section;
        let parts = state.update(section);
        assert(updated(*state, given, (parts.0, parts.1)));
        self.events = Ghost(
            self.events@.push(GraceEvent::LetGo { pending: parts.0, connection: parts.1 }),
        );
        parts
    }

    fn open(&mut self, state: &StatePtr, section: OpenWindow) -> (epoch: usize) {
        let ghost given = section;
        let epoch: usize = state.update(section);
        assert(updated(*state, given, epoch));
        self.events = Ghost(self.events@.push(GraceEvent::Opened { epoch }));
        epoch
    }

    fn schedule(&mut self, scheduler: &Sch, task: GraceTask<P, StatePtr>, delay: Duration) -> (handle:
        TaskHandle) {
        let ghost epoch = task.epoch();
        let handle = scheduler.schedule(task, Some(delay));
        self.events = Ghost(self.events@.push(GraceEvent::Scheduled { epoch, handle }));
        handle
    }

    fn keep(&mut self, state: &StatePtr, section: KeepTimer<TaskHandle>) -> (stale: Option<
        TaskHandle,
    >) {
        let ghost given = section;
        let stale = state.update(section);
        assert(updated(*state, given, stale));
        self.events = Ghost(
            self.events@.push(
                GraceEvent::Kept { epoch: given.epoch, handle: given.handle, stale },
            ),
        );
        stale
    }
}

impl<P, StatePtr, Unsub, TaskHandle, InnerSub> GraceReset<P, StatePtr> for GraceJournal<
    Unsub,
    TaskHandle,
    InnerSub,
> where
    P: Subscribers,
    StatePtr: SharedCell<Target = GraceState<Unsub, TaskHandle>>,
    Unsub: Subscription,
    TaskHandle: Subscription,
 {
    open spec fn expired(
        state: StatePtr,
        epoch: usize,
        subject: Subject<P>,
        connection: Option<Unsub>,
    ) -> bool {
        exists|section: Expire<P>|
            section.epoch() == epoch && section.subject() == subject && #[trigger] updated(
                state,
                section,
                connection,
            )
    }

    fn expire(&mut self, state: &StatePtr, section: Expire<P>) -> (connection: Option<Unsub>) {
        let ghost given = section;
        let connection = state.update(section);
        assert(updated(*state, given, connection));
        self.events = Ghost(
            self.events@.push(GraceEvent::Expired { epoch: given.epoch(), connection }),
        );
        connection
    }
}

} // verus!
