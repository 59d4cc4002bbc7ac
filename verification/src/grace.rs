//! [`RefCountGrace`]: the source outlives its last subscriber by a grace
//! period.

use crate::context::{Section, SharedCell, Subscription};
use crate::grace_ledger::{
    all_cancelled, all_ended, cancel_events, end_events, GraceArrival, GraceDeparture, GraceEvent,
    GraceLedger, GraceReset,
};
use crate::grace_state::{next_epoch, Arrival, GraceState};
use crate::scheduler::{Duration, TaskState};
use crate::subject::{found_empty, ConnectableObservable, Subject, Subscribers};
use crate::trace::Transition;
use vstd::prelude::*;

verus! {

// ==================== Sections on the shared state ====================
// Only the operations in this module can make a section that does not carry a
// connection or a timer, and nobody can copy one.
/// [`GraceState::arrive`], as a section.
pub struct Arrive(());

impl<Unsub, TaskHandle> Section<GraceState<Unsub, TaskHandle>> for Arrive {
    type Out = Arrival<TaskHandle>;

    open spec fn effect(
        self,
        before: GraceState<Unsub, TaskHandle>,
        after: GraceState<Unsub, TaskHandle>,
        out: Arrival<TaskHandle>,
    ) -> bool {
        &&& after@ == before@.arrive()
        &&& out.to_cancel == before@.pending
        &&& out.epoch == next_epoch(before@.epoch)
        &&& out.needs_connect == (before@.connection is None)
    }

    proof fn effect_evolves(
        self,
        before: GraceState<Unsub, TaskHandle>,
        after: GraceState<Unsub, TaskHandle>,
        out: Arrival<TaskHandle>,
    ) {
        assert(after@ == Transition::<Unsub, TaskHandle>::Arrive.apply(before@));
    }

    fn run(self, state: &mut GraceState<Unsub, TaskHandle>) -> (out: Arrival<TaskHandle>) {
        state.arrive()
    }
}

/// [`GraceState::park`], as a section.
pub struct Park<Unsub> {
    /// The epoch that began when the subscriber arrived.
    pub epoch: usize,
    /// The connection made for it.
    pub connection: Unsub,
}

impl<Unsub, TaskHandle> Section<GraceState<Unsub, TaskHandle>> for Park<Unsub> {
    type Out = Option<Unsub>;

    open spec fn effect(
        self,
        before: GraceState<Unsub, TaskHandle>,
        after: GraceState<Unsub, TaskHandle>,
        out: Option<Unsub>,
    ) -> bool {
        &&& after@ == before@.park(self.epoch, self.connection)
        &&& out == before@.redundant(self.epoch, self.connection)
    }

    proof fn effect_evolves(
        self,
        before: GraceState<Unsub, TaskHandle>,
        after: GraceState<Unsub, TaskHandle>,
        out: Option<Unsub>,
    ) {
        assert(after@ == (Transition::<Unsub, TaskHandle>::Park {
            epoch: self.epoch,
            connection: self.connection,
        }).apply(before@));
    }

    fn run(self, state: &mut GraceState<Unsub, TaskHandle>) -> (out: Option<Unsub>) {
        state.park(self.epoch, self.connection)
    }
}

/// [`GraceState::disconnect`], as a section.
pub struct Disconnect(());

impl<Unsub, TaskHandle> Section<GraceState<Unsub, TaskHandle>> for Disconnect {
    type Out = (Option<TaskHandle>, Option<Unsub>);

    open spec fn effect(
        self,
        before: GraceState<Unsub, TaskHandle>,
        after: GraceState<Unsub, TaskHandle>,
        out: (Option<TaskHandle>, Option<Unsub>),
    ) -> bool {
        &&& after@ == before@.disconnect()
        &&& out == (before@.pending, before@.connection)
    }

    proof fn effect_evolves(
        self,
        before: GraceState<Unsub, TaskHandle>,
        after: GraceState<Unsub, TaskHandle>,
        out: (Option<TaskHandle>, Option<Unsub>),
    ) {
        assert(after@ == Transition::<Unsub, TaskHandle>::Disconnect.apply(before@));
    }

    fn run(self, state: &mut GraceState<Unsub, TaskHandle>) -> (out: (
        Option<TaskHandle>,
        Option<Unsub>,
    )) {
        state.disconnect()
    }
}

/// [`GraceState::open_window`], as a section.
pub struct OpenWindow(());

impl<Unsub, TaskHandle> Section<GraceState<Unsub, TaskHandle>> for OpenWindow {
    type Out = usize;

    open spec fn effect(
        self,
        before: GraceState<Unsub, TaskHandle>,
        after: GraceState<Unsub, TaskHandle>,
        out: usize,
    ) -> bool {
        &&& after@ == before@.open_window()
        &&& out == next_epoch(before@.epoch)
    }

    proof fn effect_evolves(
        self,
        before: GraceState<Unsub, TaskHandle>,
        after: GraceState<Unsub, TaskHandle>,
        out: usize,
    ) {
        assert(after@ == Transition::<Unsub, TaskHandle>::OpenWindow.apply(before@));
    }

    fn run(self, state: &mut GraceState<Unsub, TaskHandle>) -> (out: usize) {
        state.open_window()
    }
}

/// [`GraceState::keep_timer`], as a section.
pub struct KeepTimer<TaskHandle> {
    /// The epoch that began when the window opened.
    pub epoch: usize,
    /// The window's timer.
    pub handle: TaskHandle,
}

impl<Unsub, TaskHandle> Section<GraceState<Unsub, TaskHandle>> for KeepTimer<TaskHandle> {
    type Out = Option<TaskHandle>;

    open spec fn effect(
        self,
        before: GraceState<Unsub, TaskHandle>,
        after: GraceState<Unsub, TaskHandle>,
        out: Option<TaskHandle>,
    ) -> bool {
        &&& after@ == before@.keep_timer(self.epoch, self.handle)
        &&& out == before@.stale(self.epoch, self.handle)
    }

    proof fn effect_evolves(
        self,
        before: GraceState<Unsub, TaskHandle>,
        after: GraceState<Unsub, TaskHandle>,
        out: Option<TaskHandle>,
    ) {
        assert(after@ == (Transition::<Unsub, TaskHandle>::KeepTimer {
            epoch: self.epoch,
            handle: self.handle,
        }).apply(before@));
    }

    fn run(self, state: &mut GraceState<Unsub, TaskHandle>) -> (out: Option<TaskHandle>) {
        state.keep_timer(self.epoch, self.handle)
    }
}

/// [`GraceState::expire`], as a section that asks the subject itself, and only
/// if nothing has happened since the window opened.
pub struct Expire<'a, P> {
    epoch: usize,
    subject: &'a Subject<P>,
}

impl<'a, P> Expire<'a, P> {
    /// The epoch that began when the window opened.
    pub closed spec fn epoch(self) -> usize {
        self.epoch
    }

    /// The subject whose observers have left.
    pub closed spec fn subject(self) -> Subject<P> {
        *self.subject
    }
}

impl<'a, P: Subscribers, Unsub, TaskHandle> Section<GraceState<Unsub, TaskHandle>> for Expire<
    'a,
    P,
> {
    type Out = Option<Unsub>;

    open spec fn effect(
        self,
        before: GraceState<Unsub, TaskHandle>,
        after: GraceState<Unsub, TaskHandle>,
        out: Option<Unsub>,
    ) -> bool {
        if before@.epoch != self.epoch() {
            after@ == before@ && out is None
        } else {
            exists|empty: bool| #[trigger]
                found_empty(self.subject(), empty) && after@ == before@.expire(self.epoch(), empty)
                    && out == before@.expired(self.epoch(), empty)
        }
    }

    proof fn effect_evolves(
        self,
        before: GraceState<Unsub, TaskHandle>,
        after: GraceState<Unsub, TaskHandle>,
        out: Option<Unsub>,
    ) {
        if before@.epoch != self.epoch() {
            assert(after@ == (Transition::<Unsub, TaskHandle>::Expire {
                epoch: self.epoch(),
                subject_empty: true,
            }).apply(before@));
        } else {
            let empty = choose|empty: bool| #[trigger]
                found_empty(self.subject(), empty) && after@ == before@.expire(self.epoch(), empty)
                    && out == before@.expired(self.epoch(), empty);
            assert(after@ == (Transition::<Unsub, TaskHandle>::Expire {
                epoch: self.epoch(),
                subject_empty: empty,
            }).apply(before@));
        }
    }

    fn run(self, state: &mut GraceState<Unsub, TaskHandle>) -> (out: Option<Unsub>) {
        if state.is_current(self.epoch) {
            let empty = self.subject.is_empty();
            assert(found_empty(self.subject(), empty));
            state.expire(self.epoch, empty)
        } else {
            None
        }
    }
}

// ==================== The operator ====================
/// A handle to the shared state of a [`RefCountGrace`].
pub trait GraceCell: SharedCell<Target = GraceState<Self::Unsub, Self::TaskHandle>> {
    /// The source subscription that the state keeps.
    type Unsub: Subscription;

    /// The timer that the state keeps.
    type TaskHandle: Subscription;
}

impl<Unsub, TaskHandle, C> GraceCell for C where
    Unsub: Subscription,
    TaskHandle: Subscription,
    C: SharedCell<Target = GraceState<Unsub, TaskHandle>>,
 {
    type Unsub = Unsub;

    type TaskHandle = TaskHandle;
}

/// The reset of one grace window: the subject to re-check, the shared state, and
/// the epoch that began when the window opened.
///
/// Only the departure that opens the window makes one.
pub struct GraceTask<P, StatePtr> {
    subject: Subject<P>,
    state: StatePtr,
    epoch: usize,
    resets: Ghost<nat>,
}

impl<P, StatePtr> GraceTask<P, StatePtr> {
    /// The subject to re-check.
    pub closed spec fn subject(self) -> Subject<P> {
        self.subject
    }

    /// The shared state.
    pub closed spec fn state(self) -> StatePtr {
        self.state
    }

    /// The epoch that began when the window opened.
    pub closed spec fn epoch(self) -> usize {
        self.epoch
    }

    /// How often the task has been carried out.
    pub closed spec fn resets(self) -> nat {
        self.resets@
    }

    /// The task has been carried out once more since it was `before`, and is
    /// otherwise the same.
    pub open spec fn reset_once_since(self, before: Self) -> bool {
        &&& self.subject() == before.subject()
        &&& self.state() == before.state()
        &&& self.epoch() == before.epoch()
        &&& self.resets() == before.resets() + 1
    }
}

/// Wraps a `ConnectableObservable` and manages the connection by subscriber
/// count, with a grace period before disconnecting.
///
/// Like [`RefCount`](crate::ref_count::RefCount), but when the last subscriber
/// leaves the source is kept alive for `grace`. A subscriber arriving inside
/// that window cancels the teardown and joins the existing connection; if none
/// does, the source is unsubscribed when the window expires.
pub struct RefCountGrace<S, P, StatePtr, Sch> {
    /// The source and the subject that shares it.
    pub connectable: ConnectableObservable<S, P>,
    /// The state shared with every clone and every subscription.
    pub state: StatePtr,
    /// How long the source outlives its last subscriber.
    pub grace: Duration,
    /// Runs the reset when a window expires.
    pub scheduler: Sch,
}

impl<S: Clone, P: Clone, StatePtr: Clone, Sch: Clone> Clone for RefCountGrace<S, P, StatePtr, Sch> {
    /// The same operator once more, on the same source and state.
    fn clone(&self) -> (operator: Self)
        ensures
            cloned(self.connectable.source, operator.connectable.source),
            cloned(self.connectable.subject.observers, operator.connectable.subject.observers),
            cloned(self.state, operator.state),
            operator.grace == self.grace,
            cloned(self.scheduler, operator.scheduler),
    {
        RefCountGrace {
            connectable: self.connectable.clone(),
            state: self.state.clone(),
            grace: self.grace,
            scheduler: self.scheduler.clone(),
        }
    }
}

/// Subscription for [`RefCountGrace`]. Starts the grace window when the last
/// subscriber leaves.
pub struct RefCountGraceSubscription<P, InnerSub, StatePtr, Sch> {
    /// The subject that the subscriber joined.
    pub subject: Subject<P>,
    /// Takes the subscriber out of the subject's list.
    pub inner: InnerSub,
    /// The state shared with the operator.
    pub state: StatePtr,
    /// How long the source outlives its last subscriber.
    pub grace: Duration,
    /// Runs the reset when a window expires.
    pub scheduler: Sch,
}

/// Cancels `handle`, if there is one.
fn cancel_all<L: GraceLedger>(handle: Option<L::TaskHandle>, ledger: &mut L)
    ensures
        all_cancelled::<L>(handle),
        final(ledger).log() == old(ledger).log() + cancel_events(handle),
{
    match handle {
        Some(inner) => ledger.cancel(inner),
        None => {},
    }
    assert(ledger.log() =~= old(ledger).log() + cancel_events(handle));
}

/// Ends `connection`, if there is one.
fn end_all<L: GraceLedger>(connection: Option<L::Unsub>, ledger: &mut L)
    ensures
        all_ended::<L>(connection),
        final(ledger).log() == old(ledger).log() + end_events(connection),
{
    match connection {
        Some(inner) => ledger.end(inner),
        None => {},
    }
    assert(ledger.log() =~= old(ledger).log() + end_events(connection));
}

// ==================== Arriving ====================
/// What a subscriber does, in order: it arrives, cancels the timer of the
/// window that was open, joins the subject, and if the source was not
/// connected, connects it, offers the connection to the state, and ends it if
/// it is not wanted.
pub open spec fn subscribe_events<Unsub, TaskHandle, InnerSub>(
    arrival: Arrival<TaskHandle>,
    inner: InnerSub,
    made: Option<(Unsub, Option<Unsub>)>,
) -> Seq<GraceEvent<Unsub, TaskHandle, InnerSub>> {
    let joined = seq![GraceEvent::Arrived(arrival)] + cancel_events(arrival.to_cancel)
        + seq![GraceEvent::Joined(inner)];
    match made {
        None => joined,
        Some((connection, redundant)) => joined + seq![
            GraceEvent::Connected(connection),
            GraceEvent::Parked { epoch: arrival.epoch, connection, redundant },
        ] + end_events(redundant),
    }
}

/// `observer` has joined a clone of `subject`, and `inner` takes it out again.
pub open spec fn joined_clone<S, P, StatePtr, Observer, L>(
    subject: Subject<P>,
    observer: Observer,
    inner: L::InnerSub,
) -> bool where P: Clone, L: GraceArrival<S, P, StatePtr, Observer> {
    exists|member: Subject<P>|
        cloned(subject.observers, member.observers) && #[trigger] L::joined(
            member,
            observer,
            inner,
        )
}

/// A subscriber has arrived at `state`, which answered `arrival`, and has
/// cancelled the timer. If the source was not connected, it has been: `made`
/// holds the connection and what `state` handed back, which has been ended.
pub open spec fn arrived<S, P, StatePtr, Observer, L>(
    connectable: ConnectableObservable<S, P>,
    state: StatePtr,
    arrival: Arrival<L::TaskHandle>,
    made: Option<(L::Unsub, Option<L::Unsub>)>,
) -> bool where L: GraceArrival<S, P, StatePtr, Observer> {
    &&& L::arrived(state, arrival)
    &&& all_cancelled::<L>(arrival.to_cancel)
    &&& arrival.needs_connect == (made is Some)
    &&& made matches Some((connection, redundant)) ==> {
        &&& L::connected(connectable, connection)
        &&& L::parked(state, arrival.epoch, connection, redundant)
        &&& all_ended::<L>(redundant)
    }
}

/// `events` are all that a subscriber does that joins as `inner`.
pub open spec fn subscribed_by<S, P, StatePtr, Observer, L>(
    connectable: ConnectableObservable<S, P>,
    state: StatePtr,
    inner: L::InnerSub,
    events: Seq<GraceEvent<L::Unsub, L::TaskHandle, L::InnerSub>>,
) -> bool where L: GraceArrival<S, P, StatePtr, Observer> {
    exists|arrival: Arrival<L::TaskHandle>, made: Option<(L::Unsub, Option<L::Unsub>)>| #[trigger]
        arrived::<S, P, StatePtr, Observer, L>(connectable, state, arrival, made) && events
            == subscribe_events(arrival, inner, made)
}

impl<S, P, StatePtr, Sch> RefCountGrace<S, P, StatePtr, Sch> {
    /// Lets `observer` receive the items of the shared source, and enters all
    /// that this takes in `ledger`.
    ///
    /// Closes any open grace window and cancels its timer, joins the subject,
    /// and connects the source if it is not connected.
    pub fn subscribe_under<Observer, L>(self, observer: Observer, ledger: &mut L) -> (subscription:
        RefCountGraceSubscription<P, L::InnerSub, StatePtr, Sch>) where
        P: Clone,
        L: GraceArrival<S, P, StatePtr, Observer>,

        ensures
            subscription.state == self.state,
            subscription.grace == self.grace,
            subscription.scheduler == self.scheduler,
            cloned(self.connectable.subject.observers, subscription.subject.observers),
            joined_clone::<S, P, StatePtr, Observer, L>(
                subscription.subject,
                observer,
                subscription.inner,
            ),
            exists|events: Seq<GraceEvent<L::Unsub, L::TaskHandle, L::InnerSub>>|
                {
                    &&& #[trigger] subscribed_by::<S, P, StatePtr, Observer, L>(
                        self.connectable,
                        self.state,
                        subscription.inner,
                        events,
                    )
                    &&& final(ledger).log() == old(ledger).log() + events
                },
    {
        let RefCountGrace { connectable, state, grace, scheduler } = self;

        // A new subscriber closes any open grace window.
        let arrival = ledger.arrive(&state, Arrive(()));
        let ghost reported = arrival;
        cancel_all(arrival.to_cancel, ledger);

        let subject = connectable.fork();
        let inner = ledger.join(subject.clone(), observer);
        assert(joined_clone::<S, P, StatePtr, Observer, L>(subject, observer, inner));

        let ghost mut made: Option<(L::Unsub, Option<L::Unsub>)> = None;
        if arrival.needs_connect {
            let epoch: usize = arrival.epoch;
            let connection = ledger.connect(connectable);
            let ghost offered = connection;
            // The source may have run to completion while connecting, so a
            // later epoch means that nobody tracks this connection: it is
            // ended, not parked.
            let redundant = ledger.park(&state, Park { epoch, connection });
            proof {
                made = Some((offered, redundant));
            }
            end_all(redundant, ledger);
        }
        let ghost events = subscribe_events(reported, inner, made);
        assert(arrived::<S, P, StatePtr, Observer, L>(self.connectable, state, reported, made));
        assert(ledger.log() =~= old(ledger).log() + events);
        let subscription = RefCountGraceSubscription { subject, inner, state, grace, scheduler };
        assert(subscribed_by::<S, P, StatePtr, Observer, L>(
            self.connectable,
            self.state,
            subscription.inner,
            events,
        ));
        subscription
    }
}

// ==================== Leaving ====================
/// What a subscriber that has left its subject does about the source.
#[derive(Clone, Copy, Debug, PartialEq, Eq, Structural)]
pub enum Departure {
    /// Nothing: other subscribers remain, and the connection is still wanted.
    Stay,
    /// Lets the source go at once: there is no window to open.
    Disconnect,
    /// Opens a grace window.
    OpenWindow,
}

/// What the departure of one subscriber means, given whether the subject is
/// empty afterwards and the grace period in nanoseconds.
pub open spec fn departure_spec(subject_empty: bool, grace: nat) -> Departure {
    if !subject_empty {
        Departure::Stay
    } else if grace == 0 {
        Departure::Disconnect
    } else {
        Departure::OpenWindow
    }
}

/// What the departure of one subscriber means, given whether the subject is
/// empty afterwards and the grace period.
pub fn departure(subject_empty: bool, grace: Duration) -> (decision: Departure)
    ensures
        decision == departure_spec(subject_empty, grace@),
{
    if !subject_empty {
        Departure::Stay
    } else if grace.is_zero() {
        Departure::Disconnect
    } else {
        Departure::OpenWindow
    }
}

/// What a departure does when others remain: it leaves and finds the subject
/// in use.
pub open spec fn stay_events<Unsub, TaskHandle, InnerSub>(inner: InnerSub) -> Seq<
    GraceEvent<Unsub, TaskHandle, InnerSub>,
> {
    seq![GraceEvent::Left(inner), GraceEvent::Asked(false)]
}

/// What the last departure does when there is no window to open: it lets the
/// source go, cancels its timer and ends its connection.
pub open spec fn let_go_events<Unsub, TaskHandle, InnerSub>(
    inner: InnerSub,
    pending: Option<TaskHandle>,
    connection: Option<Unsub>,
) -> Seq<GraceEvent<Unsub, TaskHandle, InnerSub>> {
    seq![
        GraceEvent::Left(inner),
        GraceEvent::Asked(true),
        GraceEvent::LetGo { pending, connection },
    ] + cancel_events(pending) + end_events(connection)
}

/// What the last departure does otherwise: it opens a window, schedules the
/// reset, offers the timer to the state, and cancels it if it is stale.
pub open spec fn open_events<Unsub, TaskHandle, InnerSub>(
    inner: InnerSub,
    epoch: usize,
    handle: TaskHandle,
    stale: Option<TaskHandle>,
) -> Seq<GraceEvent<Unsub, TaskHandle, InnerSub>> {
    seq![
        GraceEvent::Left(inner),
        GraceEvent::Asked(true),
        GraceEvent::Opened { epoch },
        GraceEvent::Scheduled { epoch, handle },
        GraceEvent::Kept { epoch, handle, stale },
    ] + cancel_events(stale)
}

/// The source has been let go in `state`, which handed out `pending` and
/// `connection`, and both have been ended.
pub open spec fn let_go<P, StatePtr, Sch, L>(
    state: StatePtr,
    pending: Option<L::TaskHandle>,
    connection: Option<L::Unsub>,
) -> bool where L: GraceDeparture<P, StatePtr, Sch> {
    &&& L::let_go_of(state, pending, connection)
    &&& all_cancelled::<L>(pending)
    &&& all_ended::<L>(connection)
}

/// `task` is the reset of the window that opened in `state` at `epoch`, and has
/// not been carried out yet.
pub open spec fn is_reset<P, StatePtr: Clone>(
    task: GraceTask<P, StatePtr>,
    subject: Subject<P>,
    state: StatePtr,
    epoch: usize,
) -> bool {
    &&& task.subject() == subject
    &&& cloned(state, task.state())
    &&& task.epoch() == epoch
    &&& task.resets() == 0
}

/// A grace window has been opened in `state` at `epoch`, and its reset given to
/// `scheduler` with the whole grace period as its delay. Its timer `handle` has
/// been offered to `state`, which handed back `stale`, and that has been
/// cancelled.
pub open spec fn window_opened<P, StatePtr, Sch, L>(
    subject: Subject<P>,
    state: StatePtr,
    grace: Duration,
    scheduler: Sch,
    epoch: usize,
    handle: L::TaskHandle,
    stale: Option<L::TaskHandle>,
) -> bool where StatePtr: Clone, L: GraceDeparture<P, StatePtr, Sch> {
    &&& L::opened(state, epoch)
    &&& exists|task: GraceTask<P, StatePtr>| #[trigger]
        is_reset(task, subject, state, epoch) && L::scheduled(scheduler, task, grace, handle)
    &&& L::kept(state, epoch, handle, stale)
    &&& all_cancelled::<L>(stale)
}

/// `events` are all that the departure of `subscription` does.
pub open spec fn left_by<P, StatePtr, Sch, L>(
    subscription: RefCountGraceSubscription<P, L::InnerSub, StatePtr, Sch>,
    events: Seq<GraceEvent<L::Unsub, L::TaskHandle, L::InnerSub>>,
) -> bool where StatePtr: Clone, L: GraceDeparture<P, StatePtr, Sch> {
    let RefCountGraceSubscription { subject, inner, state, grace, scheduler } = subscription;
    &&& L::left(inner)
    &&& exists|subject_empty: bool| #[trigger]
        L::asked(subject, subject_empty) && match departure_spec(subject_empty, grace@) {
            Departure::Stay => events == stay_events::<L::Unsub, L::TaskHandle, L::InnerSub>(inner),
            Departure::Disconnect => exists|
                pending: Option<L::TaskHandle>,
                connection: Option<L::Unsub>,
            | #[trigger]
                let_go::<P, StatePtr, Sch, L>(state, pending, connection) && events
                    == let_go_events(inner, pending, connection),
            Departure::OpenWindow => exists|
                epoch: usize,
                handle: L::TaskHandle,
                stale: Option<L::TaskHandle>,
            | #[trigger]
                window_opened::<P, StatePtr, Sch, L>(
                    subject,
                    state,
                    grace,
                    scheduler,
                    epoch,
                    handle,
                    stale,
                ) && events == open_events::<L::Unsub, L::TaskHandle, L::InnerSub>(
                    inner,
                    epoch,
                    handle,
                    stale,
                ),
        }
}

impl<P, InnerSub, StatePtr, Sch> RefCountGraceSubscription<P, InnerSub, StatePtr, Sch> {
    /// Leaves the subject, and enters all that this takes in `ledger`. The last
    /// subscriber to leave opens the grace window, or lets the source go at once
    /// if the grace period is zero.
    pub fn unsubscribe_under<L>(self, ledger: &mut L) where
        StatePtr: Clone,
        L: GraceDeparture<P, StatePtr, Sch, InnerSub = InnerSub>,

        ensures
            exists|events: Seq<GraceEvent<L::Unsub, L::TaskHandle, InnerSub>>|
                {
                    &&& #[trigger] left_by::<P, StatePtr, Sch, L>(self, events)
                    &&& final(ledger).log() == old(ledger).log() + events
                },
    {
        let RefCountGraceSubscription { subject, inner, state, grace, scheduler } = self;
        let ghost member = inner;
        let ghost mut events = stay_events::<L::Unsub, L::TaskHandle, InnerSub>(member);
        ledger.leave(inner);
        let subject_empty = ledger.ask(&subject);
        assert(L::asked(self.subject, subject_empty));
        match departure(subject_empty, grace) {
            Departure::Stay => {
                // Other subscribers remain; the connection is still wanted.
            },
            Departure::Disconnect => {
                // No window to open: exactly as without a grace period.
                let (pending, connection) = ledger.let_go(&state, Disconnect(()));
                proof {
                    events = let_go_events(member, pending, connection);
                }
                let ghost parts = (pending, connection);
                cancel_all(pending, ledger);
                end_all(connection, ledger);
                assert(let_go::<P, StatePtr, Sch, L>(state, parts.0, parts.1));
            },
            Departure::OpenWindow => {
                let epoch: usize = ledger.open(&state, OpenWindow(()));
                let task = GraceTask { subject, state: state.clone(), epoch, resets: Ghost(0) };
                assert(is_reset(task, self.subject, state, epoch));
                let handle = ledger.schedule(&scheduler, task, grace);
                let ghost timer = handle;

                // The reset ran at once, or someone subscribed meanwhile: the
                // timer is stale.
                let stale = ledger.keep(&state, KeepTimer { epoch, handle });
                let ghost back = stale;
                proof {
                    events = open_events(member, epoch, timer, back);
                }
                cancel_all(stale, ledger);
                assert(window_opened::<P, StatePtr, Sch, L>(
                    self.subject,
                    state,
                    grace,
                    scheduler,
                    epoch,
                    timer,
                    back,
                ));
            },
        }
        assert(left_by::<P, StatePtr, Sch, L>(self, events));
        assert(ledger.log() =~= old(ledger).log() + events);
    }
}

// ==================== The end of a window ====================
/// What a reset does: it tells the state that its window has expired, and ends
/// the connection that this hands out.
pub open spec fn reset_events<Unsub, TaskHandle, InnerSub>(
    epoch: usize,
    connection: Option<Unsub>,
) -> Seq<GraceEvent<Unsub, TaskHandle, InnerSub>> {
    seq![GraceEvent::Expired { epoch, connection }] + end_events(connection)
}

impl<P, StatePtr> GraceTask<P, StatePtr> {
    /// Deals with the end of the window, and enters all that this takes in
    /// `ledger`.
    ///
    /// Disconnects the source only if the epoch is still current *and* the
    /// subject is still empty; either check failing means that a subscriber won
    /// the race and the reset is abandoned. What is decided while the state is
    /// held is acted on afterwards: a teardown may call back into the operator.
    pub fn reset_under<L>(&mut self, ledger: &mut L) -> (outcome: TaskState) where
        L: GraceReset<P, StatePtr>,

        ensures
            final(self).reset_once_since(*old(self)),
            outcome == TaskState::Finished,
            exists|connection: Option<L::Unsub>|
                {
                    &&& #[trigger] L::expired(
                        old(self).state(),
                        old(self).epoch(),
                        old(self).subject(),
                        connection,
                    )
                    &&& all_ended::<L>(connection)
                    &&& final(ledger).log() == old(ledger).log() + reset_events(
                        old(self).epoch(),
                        connection,
                    )
                },
    {
        let epoch: usize = self.epoch;
        let connection = ledger.expire(&self.state, Expire { epoch, subject: &self.subject });
        let ghost taken = connection;
        end_all(connection, ledger);
        self.resets = Ghost(self.resets@ + 1);
        assert(L::expired(old(self).state(), old(self).epoch(), old(self).subject(), taken));
        assert(ledger.log() =~= old(ledger).log() + reset_events(old(self).epoch(), taken));
        TaskState::Finished
    }
}

} // verus!
