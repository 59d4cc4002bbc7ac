//! What the operations of a [`RefCountGrace`] are for.
//!
//! The laws start from the calls themselves, on the caller's values or under
//! any ledger. They say in which order things happen and under which condition,
//! that each of them has happened to the right value, and what has become of the
//! observers, the connection and the window when the call is over.

use crate::context::{updated, Section, SharedCell, Subscription};
use crate::grace::{
    departure, is_reset, joined_clone, left_by, let_go, let_go_events, open_events,
    reset_events, stay_events, subscribe_events, subscribed_by, window_opened, Arrive, Departure,
    Disconnect, Expire, GraceCell, GraceTask, KeepTimer, OpenWindow, Park, RefCountGrace,
    RefCountGraceSubscription,
};
use crate::grace_journal::GraceJournal;
use crate::grace_ledger::{
    GraceArrival, GraceDeparture, GraceEvent, GraceLedger, GraceReset,
};
use crate::grace_runs::{
    law_let_go_is_a_path, law_open_is_a_path, law_reset_is_a_path, law_stay_is_a_path,
    law_subscribe_is_a_path, path, Slot, Step, System,
};
use crate::grace_state::{Arrival, GraceState};
use crate::live::grace_reset_handler;
use crate::ref_count_laws::entered;
use crate::scheduler::{Duration, Scheduler, Task, TaskState};
use crate::state_laws::following;
use crate::subject::{
    found_empty, ConnectableObservable, CoreObservable, Observers, Subject, Subscribers,
};
use vstd::prelude::*;

verus! {

// ==================== In which order ====================
/// From `at` on there is the cancelling of `handle`, if there is one, and
/// nothing else.
pub open spec fn cancels_at_the_end<Unsub, TaskHandle, InnerSub>(
    events: Seq<GraceEvent<Unsub, TaskHandle, InnerSub>>,
    at: int,
    handle: Option<TaskHandle>,
) -> bool {
    match handle {
        Some(timer) => events.len() == at + 1 && events[at] == GraceEvent::<
            Unsub,
            TaskHandle,
            InnerSub,
        >::Cancelled(timer),
        None => events.len() == at,
    }
}

/// From `at` on there is the ending of `connection`, if there is one, and
/// nothing else.
pub open spec fn ends_at_the_end<Unsub, TaskHandle, InnerSub>(
    events: Seq<GraceEvent<Unsub, TaskHandle, InnerSub>>,
    at: int,
    connection: Option<Unsub>,
) -> bool {
    match connection {
        Some(made) => events.len() == at + 1 && events[at] == GraceEvent::<
            Unsub,
            TaskHandle,
            InnerSub,
        >::Ended(made),
        None => events.len() == at,
    }
}

/// The rest of an arrival, from `at` on: the observer joins. Unless a connection
/// is needed, that is all. Then the source is connected, and that very
/// connection is offered under the epoch that the arrival began. If it comes
/// back, it is ended.
pub open spec fn joins<Unsub, TaskHandle, InnerSub>(
    inner: InnerSub,
    arrival: Arrival<TaskHandle>,
    events: Seq<GraceEvent<Unsub, TaskHandle, InnerSub>>,
    at: int,
) -> bool {
    &&& events.len() > at
    &&& events[at] == GraceEvent::<Unsub, TaskHandle, InnerSub>::Joined(inner)
    &&& if !arrival.needs_connect {
        events.len() == at + 1
    } else {
        &&& events.len() >= at + 3
        &&& events[at + 1] matches GraceEvent::Connected(made) && events[at
            + 2] matches GraceEvent::Parked { epoch, connection, redundant } && {
            &&& epoch == arrival.epoch
            &&& connection == made
            &&& ends_at_the_end(events, at + 3, redundant)
        }
    }
}

/// An arrival: the state is told, the timer that it hands out is cancelled, and
/// the observer joins.
pub open spec fn arrives<Unsub, TaskHandle, InnerSub>(
    inner: InnerSub,
    events: Seq<GraceEvent<Unsub, TaskHandle, InnerSub>>,
) -> bool {
    &&& events.len() > 0
    &&& events[0] matches GraceEvent::Arrived(arrival) && match arrival.to_cancel {
        Some(handle) => {
            &&& events.len() > 1
            &&& events[1] == GraceEvent::<Unsub, TaskHandle, InnerSub>::Cancelled(handle)
            &&& joins(inner, arrival, events, 2)
        },
        None => joins(inner, arrival, events, 1),
    }
}

/// The last departure without a grace period, from the third event on: the
/// source is let go, and the timer and the connection that come out are
/// cancelled and ended.
pub open spec fn lets_go<Unsub, TaskHandle, InnerSub>(
    events: Seq<GraceEvent<Unsub, TaskHandle, InnerSub>>,
) -> bool {
    &&& events.len() >= 3
    &&& events[2] matches GraceEvent::LetGo { pending, connection } && match pending {
        Some(handle) => {
            &&& events.len() >= 4
            &&& events[3] == GraceEvent::<Unsub, TaskHandle, InnerSub>::Cancelled(handle)
            &&& ends_at_the_end(events, 4, connection)
        },
        None => ends_at_the_end(events, 3, connection),
    }
}

/// The last departure with a grace period, from the third event on: a window
/// opens, the reset of that very window is scheduled, and its timer is offered.
/// If the timer comes back, it is cancelled.
pub open spec fn opens<Unsub, TaskHandle, InnerSub>(
    events: Seq<GraceEvent<Unsub, TaskHandle, InnerSub>>,
) -> bool {
    &&& events.len() >= 5
    &&& events[2] matches GraceEvent::Opened { epoch: window }
        && events[3] matches GraceEvent::Scheduled { epoch: scheduled, handle: timer }
        && events[4] matches GraceEvent::Kept { epoch, handle, stale } && {
        &&& scheduled == window
        &&& epoch == window
        &&& handle == timer
        &&& cancels_at_the_end(events, 5, stale)
    }
}

/// A departure with a grace period of `nanos` nanoseconds: the observer leaves,
/// then the subject is asked. Unless it is empty, that is all. Without a grace
/// period the source is let go; with any other, a window opens.
pub open spec fn departs<Unsub, TaskHandle, InnerSub>(
    inner: InnerSub,
    nanos: nat,
    events: Seq<GraceEvent<Unsub, TaskHandle, InnerSub>>,
) -> bool {
    &&& events.len() >= 2
    &&& events[0] == GraceEvent::<Unsub, TaskHandle, InnerSub>::Left(inner)
    &&& events[1] matches GraceEvent::Asked(empty) && if !empty {
        events.len() == 2
    } else if nanos == 0 {
        lets_go(events)
    } else {
        opens(events)
    }
}

/// A reset: the state is told that the window of `epoch` has expired, and the
/// connection that comes out is ended.
pub open spec fn resets<Unsub, TaskHandle, InnerSub>(
    epoch: usize,
    events: Seq<GraceEvent<Unsub, TaskHandle, InnerSub>>,
) -> bool {
    &&& events.len() > 0
    &&& events[0] matches GraceEvent::Expired { epoch: at, connection } && at == epoch
        && ends_at_the_end(events, 1, connection)
}

// ==================== To which values ====================
/// `observer` is in the list of `subject`, by way of a clone, and `inner` takes
/// it out.
pub open spec fn is_in_the_list<S, P, StatePtr, Observer, L>(
    subject: Subject<P>,
    observer: Observer,
    inner: L::InnerSub,
) -> bool where P: Clone, L: GraceArrival<S, P, StatePtr, Observer> {
    exists|member: Subject<P>|
        cloned(subject.observers, member.observers) && #[trigger] L::joined(
            member,
            observer,
            inner,
        )
}

/// `event`, which is part of the arrival of `observer`, has happened to the
/// values that it is about.
pub open spec fn arrival_true<S, P, StatePtr, Sch, Observer, L>(
    operator: RefCountGrace<S, P, StatePtr, Sch>,
    observer: Observer,
    subject: Subject<P>,
    event: GraceEvent<L::Unsub, L::TaskHandle, L::InnerSub>,
) -> bool where P: Clone, L: GraceArrival<S, P, StatePtr, Observer> {
    match event {
        GraceEvent::Arrived(arrival) => L::arrived(operator.state, arrival),
        GraceEvent::Cancelled(handle) => L::cancelled(handle),
        GraceEvent::Joined(inner) => is_in_the_list::<S, P, StatePtr, Observer, L>(
            subject,
            observer,
            inner,
        ),
        GraceEvent::Connected(connection) => L::connected(operator.connectable, connection),
        GraceEvent::Parked { epoch, connection, redundant } => L::parked(
            operator.state,
            epoch,
            connection,
            redundant,
        ),
        GraceEvent::Ended(connection) => L::ended(connection),
        _ => false,
    }
}

/// `task` is a reset of the window that opened at `epoch`, for the subject and
/// the state of `subscription`, and has not been carried out.
pub open spec fn belongs_to<P, InnerSub, StatePtr: Clone, Sch>(
    task: GraceTask<P, StatePtr>,
    subscription: RefCountGraceSubscription<P, InnerSub, StatePtr, Sch>,
    epoch: usize,
) -> bool {
    &&& task.subject() == subscription.subject
    &&& cloned(subscription.state, task.state())
    &&& task.epoch() == epoch
    &&& task.resets() == 0
}

/// A reset of the window that opened at `epoch` has been scheduled for the whole
/// grace period, and `handle` is its timer.
pub open spec fn is_scheduled<P, StatePtr, Sch, L>(
    subscription: RefCountGraceSubscription<P, L::InnerSub, StatePtr, Sch>,
    epoch: usize,
    handle: L::TaskHandle,
) -> bool where StatePtr: Clone, L: GraceDeparture<P, StatePtr, Sch> {
    exists|task: GraceTask<P, StatePtr>| #[trigger]
        belongs_to(task, subscription, epoch) && L::scheduled(
            subscription.scheduler,
            task,
            subscription.grace,
            handle,
        )
}

/// `event`, which is part of the departure of `subscription`, has happened to
/// the values that it is about.
pub open spec fn departure_true<P, StatePtr, Sch, L>(
    subscription: RefCountGraceSubscription<P, L::InnerSub, StatePtr, Sch>,
    event: GraceEvent<L::Unsub, L::TaskHandle, L::InnerSub>,
) -> bool where StatePtr: Clone, L: GraceDeparture<P, StatePtr, Sch> {
    match event {
        GraceEvent::Left(inner) => inner == subscription.inner && L::left(inner),
        GraceEvent::Asked(empty) => L::asked(subscription.subject, empty),
        GraceEvent::LetGo { pending, connection } => L::let_go_of(
            subscription.state,
            pending,
            connection,
        ),
        GraceEvent::Opened { epoch } => L::opened(subscription.state, epoch),
        GraceEvent::Scheduled { epoch, handle } => is_scheduled::<P, StatePtr, Sch, L>(
            subscription,
            epoch,
            handle,
        ),
        GraceEvent::Kept { epoch, handle, stale } => L::kept(
            subscription.state,
            epoch,
            handle,
            stale,
        ),
        GraceEvent::Cancelled(handle) => L::cancelled(handle),
        GraceEvent::Ended(connection) => L::ended(connection),
        _ => false,
    }
}

/// `event`, which is part of the reset `task`, has happened to the values that
/// it is about.
pub open spec fn reset_true<P, StatePtr, L>(
    task: GraceTask<P, StatePtr>,
    event: GraceEvent<L::Unsub, L::TaskHandle, L::InnerSub>,
) -> bool where L: GraceReset<P, StatePtr> {
    match event {
        GraceEvent::Expired { epoch, connection } => L::expired(
            task.state(),
            epoch,
            task.subject(),
            connection,
        ),
        GraceEvent::Ended(connection) => L::ended(connection),
        _ => false,
    }
}

/// A subscriber has done what an arrival takes, in that order and nothing else,
/// each time to the right value. Its subscription has the operator's state,
/// grace period and scheduler, and begins where a run has it begin.
pub open spec fn arrived<S, P, StatePtr, Sch, Observer, L>(
    operator: RefCountGrace<S, P, StatePtr, Sch>,
    observer: Observer,
    subscription: RefCountGraceSubscription<P, L::InnerSub, StatePtr, Sch>,
    before: Seq<GraceEvent<L::Unsub, L::TaskHandle, L::InnerSub>>,
    after: Seq<GraceEvent<L::Unsub, L::TaskHandle, L::InnerSub>>,
) -> bool where P: Clone, L: GraceArrival<S, P, StatePtr, Observer> {
    let events = entered(before, after);
    &&& after == before + events
    &&& arrives(subscription.inner, events)
    &&& forall|i: int|
        0 <= i < events.len() ==> arrival_true::<S, P, StatePtr, Sch, Observer, L>(
            operator,
            observer,
            subscription.subject,
            #[trigger] events[i],
        )
    &&& path(Slot::<L::Unsub, L::TaskHandle>::Idle, events, operator.grace@) == Some(
        Slot::<L::Unsub, L::TaskHandle>::Subscribed,
    )
    &&& subscription.state == operator.state
    &&& subscription.grace == operator.grace
    &&& subscription.scheduler == operator.scheduler
    &&& cloned(operator.connectable.subject.observers, subscription.subject.observers)
}

/// A subscriber that leaves has done what a departure takes, in that order and
/// nothing else, each time to the right value, and ends where a run has it end.
pub open spec fn departed<P, StatePtr, Sch, L>(
    subscription: RefCountGraceSubscription<P, L::InnerSub, StatePtr, Sch>,
    before: Seq<GraceEvent<L::Unsub, L::TaskHandle, L::InnerSub>>,
    after: Seq<GraceEvent<L::Unsub, L::TaskHandle, L::InnerSub>>,
) -> bool where StatePtr: Clone, L: GraceDeparture<P, StatePtr, Sch> {
    let events = entered(before, after);
    &&& after == before + events
    &&& departs(subscription.inner, subscription.grace@, events)
    &&& forall|i: int|
        0 <= i < events.len() ==> departure_true::<P, StatePtr, Sch, L>(
            subscription,
            #[trigger] events[i],
        )
    &&& path(
        Slot::<L::Unsub, L::TaskHandle>::Subscribed,
        events,
        subscription.grace@,
    ) == Some(Slot::<L::Unsub, L::TaskHandle>::Closed)
}

/// A reset has been carried out, in that order and nothing else, each time to
/// the right value.
pub open spec fn was_reset<P, StatePtr, L>(
    task: GraceTask<P, StatePtr>,
    before: Seq<GraceEvent<L::Unsub, L::TaskHandle, L::InnerSub>>,
    after: Seq<GraceEvent<L::Unsub, L::TaskHandle, L::InnerSub>>,
) -> bool where L: GraceReset<P, StatePtr> {
    let events = entered(before, after);
    &&& after == before + events
    &&& resets(task.epoch(), events)
    &&& forall|i: int|
        0 <= i < events.len() ==> reset_true::<P, StatePtr, L>(task, #[trigger] events[i])
    &&& forall|grace: nat| #[trigger]
        path(Slot::<L::Unsub, L::TaskHandle>::Idle, events, grace) == Some(
            Slot::<L::Unsub, L::TaskHandle>::Closed,
        )
}

proof fn lemma_arrives<Unsub, TaskHandle, InnerSub>(
    arrival: Arrival<TaskHandle>,
    inner: InnerSub,
    made: Option<(Unsub, Option<Unsub>)>,
)
    requires
        arrival.needs_connect == (made is Some),
    ensures
        arrives(inner, subscribe_events(arrival, inner, made)),
{
}

proof fn lemma_arrival_true<S, P, StatePtr, Sch, Observer, L>(
    operator: RefCountGrace<S, P, StatePtr, Sch>,
    observer: Observer,
    subject: Subject<P>,
    arrival: Arrival<L::TaskHandle>,
    inner: L::InnerSub,
    made: Option<(L::Unsub, Option<L::Unsub>)>,
) where P: Clone, L: GraceArrival<S, P, StatePtr, Observer>
    requires
        crate::grace::arrived::<S, P, StatePtr, Observer, L>(
            operator.connectable,
            operator.state,
            arrival,
            made,
        ),
        joined_clone::<S, P, StatePtr, Observer, L>(subject, observer, inner),
    ensures
        forall|i: int|
            #![trigger subscribe_events(arrival, inner, made)[i]]
            0 <= i < subscribe_events(arrival, inner, made).len() ==> arrival_true::<
                S,
                P,
                StatePtr,
                Sch,
                Observer,
                L,
            >(operator, observer, subject, subscribe_events(arrival, inner, made)[i]),
{
    assert(is_in_the_list::<S, P, StatePtr, Observer, L>(subject, observer, inner));
}

/// Under any ledger, subscribing is an arrival.
pub proof fn law_subscribe_arrives<S, P, StatePtr, Sch, Observer, L>(
    operator: RefCountGrace<S, P, StatePtr, Sch>,
    observer: Observer,
    subscription: RefCountGraceSubscription<P, L::InnerSub, StatePtr, Sch>,
) where P: Clone, L: GraceArrival<S, P, StatePtr, Observer>
    ensures
        forall|ledger: &mut L| #[trigger]
            call_ensures(
                RefCountGrace::<S, P, StatePtr, Sch>::subscribe_under::<Observer, L>,
                (operator, observer, ledger),
                subscription,
            ) ==> arrived::<S, P, StatePtr, Sch, Observer, L>(
                operator,
                observer,
                subscription,
                ledger.log(),
                final(ledger).log(),
            ),
{
    assert forall|ledger: &mut L| #[trigger]
        call_ensures(
            RefCountGrace::<S, P, StatePtr, Sch>::subscribe_under::<Observer, L>,
            (operator, observer, ledger),
            subscription,
        ) implies arrived::<S, P, StatePtr, Sch, Observer, L>(
        operator,
        observer,
        subscription,
        ledger.log(),
        final(ledger).log(),
    ) by {
        let events = choose|events: Seq<GraceEvent<L::Unsub, L::TaskHandle, L::InnerSub>>|
            {
                &&& #[trigger] subscribed_by::<S, P, StatePtr, Observer, L>(
                    operator.connectable,
                    operator.state,
                    subscription.inner,
                    events,
                )
                &&& final(ledger).log() == ledger.log() + events
            };
        assert(entered(ledger.log(), final(ledger).log()) =~= events);
        let (arrival, made) = choose|
            arrival: Arrival<L::TaskHandle>,
            made: Option<(L::Unsub, Option<L::Unsub>)>,
        | #[trigger]
            crate::grace::arrived::<S, P, StatePtr, Observer, L>(
                operator.connectable,
                operator.state,
                arrival,
                made,
            ) && events == subscribe_events(arrival, subscription.inner, made);
        law_subscribe_is_a_path::<L::Unsub, L::TaskHandle, L::InnerSub>(
            arrival,
            subscription.inner,
            made,
            operator.grace@,
        );
        assert(joined_clone::<S, P, StatePtr, Observer, L>(
            subscription.subject,
            observer,
            subscription.inner,
        ));
        lemma_arrives(arrival, subscription.inner, made);
        lemma_arrival_true::<S, P, StatePtr, Sch, Observer, L>(
            operator,
            observer,
            subscription.subject,
            arrival,
            subscription.inner,
            made,
        );
    }
}

/// Under any ledger, unsubscribing is a departure.
pub proof fn law_unsubscribe_departs<P, InnerSub, StatePtr, Sch, L>(
    subscription: RefCountGraceSubscription<P, InnerSub, StatePtr, Sch>,
) where StatePtr: Clone, L: GraceDeparture<P, StatePtr, Sch, InnerSub = InnerSub>
    ensures
        forall|ledger: &mut L| #[trigger]
            call_ensures(
                RefCountGraceSubscription::<P, InnerSub, StatePtr, Sch>::unsubscribe_under::<L>,
                (subscription, ledger),
                (),
            ) ==> departed::<P, StatePtr, Sch, L>(subscription, ledger.log(), final(ledger).log()),
{
    assert forall|ledger: &mut L| #[trigger]
        call_ensures(
            RefCountGraceSubscription::<P, InnerSub, StatePtr, Sch>::unsubscribe_under::<L>,
            (subscription, ledger),
            (),
        ) implies departed::<P, StatePtr, Sch, L>(
        subscription,
        ledger.log(),
        final(ledger).log(),
    ) by {
        let events = choose|events: Seq<GraceEvent<L::Unsub, L::TaskHandle, InnerSub>>|
            {
                &&& #[trigger] left_by::<P, StatePtr, Sch, L>(subscription, events)
                &&& final(ledger).log() == ledger.log() + events
            };
        assert(entered(ledger.log(), final(ledger).log()) =~= events);
        lemma_departs::<P, StatePtr, Sch, L>(subscription, events);
    }
}

proof fn lemma_departs<P, StatePtr, Sch, L>(
    subscription: RefCountGraceSubscription<P, L::InnerSub, StatePtr, Sch>,
    events: Seq<GraceEvent<L::Unsub, L::TaskHandle, L::InnerSub>>,
) where StatePtr: Clone, L: GraceDeparture<P, StatePtr, Sch>
    requires
        left_by::<P, StatePtr, Sch, L>(subscription, events),
    ensures
        departs(subscription.inner, subscription.grace@, events),
        forall|i: int|
            0 <= i < events.len() ==> departure_true::<P, StatePtr, Sch, L>(
                subscription,
                #[trigger] events[i],
            ),
        path(
            Slot::<L::Unsub, L::TaskHandle>::Subscribed,
            events,
            subscription.grace@,
        ) == Some(Slot::<L::Unsub, L::TaskHandle>::Closed),
{
    let RefCountGraceSubscription { subject, inner, state, grace, scheduler } = subscription;
    if events == stay_events::<L::Unsub, L::TaskHandle, L::InnerSub>(inner) {
        law_stay_is_a_path::<L::Unsub, L::TaskHandle, L::InnerSub>(inner, grace@);
    } else if grace@ == 0 {
        let (pending, connection) = choose|
            pending: Option<L::TaskHandle>,
            connection: Option<L::Unsub>,
        | #[trigger]
            let_go::<P, StatePtr, Sch, L>(state, pending, connection) && events == let_go_events(
                inner,
                pending,
                connection,
            );
        law_let_go_is_a_path::<L::Unsub, L::TaskHandle, L::InnerSub>(inner, pending, connection);
    } else {
        let (epoch, handle, stale) = choose|
            epoch: usize,
            handle: L::TaskHandle,
            stale: Option<L::TaskHandle>,
        | #[trigger]
            window_opened::<P, StatePtr, Sch, L>(
                subject,
                state,
                grace,
                scheduler,
                epoch,
                handle,
                stale,
            ) && events == open_events::<L::Unsub, L::TaskHandle, L::InnerSub>(
                inner,
                epoch,
                handle,
                stale,
            );
        law_open_is_a_path::<L::Unsub, L::TaskHandle, L::InnerSub>(
            inner,
            epoch,
            handle,
            stale,
            grace@,
        );
        let task = choose|task: GraceTask<P, StatePtr>| #[trigger]
            is_reset(task, subject, state, epoch) && L::scheduled(scheduler, task, grace, handle);
        assert(belongs_to(task, subscription, epoch));
        assert(is_scheduled::<P, StatePtr, Sch, L>(subscription, epoch, handle));
    }
}

/// Under any ledger, carrying out a task is a reset of its window, and leaves
/// the task as it was but for the count.
pub proof fn law_task_resets<P, StatePtr, L>(outcome: TaskState) where L: GraceReset<P, StatePtr>
    ensures
        forall|task: &mut GraceTask<P, StatePtr>, ledger: &mut L| #[trigger]
            call_ensures(
                GraceTask::<P, StatePtr>::reset_under::<L>,
                (task, ledger),
                outcome,
            ) ==> {
                &&& was_reset::<P, StatePtr, L>(*task, ledger.log(), final(ledger).log())
                &&& outcome == TaskState::Finished
                &&& final(task).subject() == task.subject()
                &&& final(task).state() == task.state()
                &&& final(task).epoch() == task.epoch()
                &&& final(task).resets() == task.resets() + 1
            },
{
    assert forall|task: &mut GraceTask<P, StatePtr>, ledger: &mut L| #[trigger]
        call_ensures(
            GraceTask::<P, StatePtr>::reset_under::<L>,
            (task, ledger),
            outcome,
        ) implies was_reset::<P, StatePtr, L>(*task, ledger.log(), final(ledger).log()) by {
        let connection = choose|connection: Option<L::Unsub>|
            {
                &&& #[trigger] L::expired(
                    task.state(),
                    task.epoch(),
                    task.subject(),
                    connection,
                )
                &&& crate::grace_ledger::all_ended::<L>(connection)
                &&& final(ledger).log() == ledger.log() + reset_events(task.epoch(), connection)
            };
        let events = reset_events::<L::Unsub, L::TaskHandle, L::InnerSub>(
            task.epoch(),
            connection,
        );
        assert(entered(ledger.log(), final(ledger).log()) =~= events);
        assert forall|grace: nat| #[trigger]
            path(Slot::<L::Unsub, L::TaskHandle>::Idle, events, grace) == Some(
                Slot::<L::Unsub, L::TaskHandle>::Closed,
            ) by {
            law_reset_is_a_path::<L::Unsub, L::TaskHandle, L::InnerSub>(
                task.epoch(),
                connection,
                grace,
            );
        }
    }
}

/// A departure stays out of it exactly if somebody remains. If nobody does, it
/// disconnects exactly if the grace period has no nanosecond at all, and opens a
/// window for every other.
pub proof fn law_window_for_every_grace_period(
    subject_empty: bool,
    grace: Duration,
    nanos: u128,
    decision: Departure,
)
    requires
        call_ensures(departure, (subject_empty, grace), decision),
        call_ensures(Duration::as_nanos, (&grace,), nanos),
    ensures
        decision is Stay <==> !subject_empty,
        decision is Disconnect <==> subject_empty && nanos == 0,
        decision is OpenWindow <==> subject_empty && nanos > 0,
{
}

// ==================== On the caller's values ====================
/// `event`, which is part of the arrival of `observer`, is a call that was made
/// on the caller's values.
pub open spec fn arrival_real<S, P, StatePtr, Sch, Observer>(
    operator: RefCountGrace<S, P, StatePtr, Sch>,
    observer: Observer,
    subject: Subject<P>,
    event: GraceEvent<S::Unsub, Sch::TaskHandle, P::Unsub>,
) -> bool where
    S: CoreObservable<Subject<P>>,
    P: Clone + Observers<Observer>,
    StatePtr: Clone + SharedCell<Target = GraceState<S::Unsub, Sch::TaskHandle>>,
    Sch: Scheduler<GraceTask<P, StatePtr>>,
 {
    match event {
        GraceEvent::Arrived(arrival) => exists|section: Arrive| #[trigger]
            call_ensures(StatePtr::update::<Arrive>, (&operator.state, section), arrival),
        GraceEvent::Cancelled(handle) => call_ensures(
            <Sch::TaskHandle as Subscription>::unsubscribe,
            (handle,),
            (),
        ),
        GraceEvent::Joined(inner) => exists|member: Subject<P>|
            cloned(subject.observers, member.observers) && #[trigger] call_ensures(
                P::insert,
                (&member.observers, observer),
                inner,
            ),
        GraceEvent::Connected(connection) => call_ensures(
            S::subscribe,
            (operator.connectable.source, operator.connectable.subject),
            connection,
        ),
        GraceEvent::Parked { epoch, connection, redundant } => call_ensures(
            StatePtr::update::<Park<S::Unsub>>,
            (&operator.state, Park { epoch, connection }),
            redundant,
        ),
        GraceEvent::Ended(connection) => call_ensures(
            <S::Unsub as Subscription>::unsubscribe,
            (connection,),
            (),
        ),
        _ => false,
    }
}

/// `event`, which is part of the departure of `subscription`, is a call that was
/// made on the caller's values. In particular the reset of a window was given to
/// the caller's scheduler with the whole grace period as its delay.
pub open spec fn departure_real<P, InnerSub, StatePtr, Sch>(
    subscription: RefCountGraceSubscription<P, InnerSub, StatePtr, Sch>,
    event: GraceEvent<StatePtr::Unsub, StatePtr::TaskHandle, InnerSub>,
) -> bool where
    P: Subscribers,
    InnerSub: Subscription,
    StatePtr: Clone + GraceCell,
    Sch: Scheduler<GraceTask<P, StatePtr>, TaskHandle = StatePtr::TaskHandle>,
 {
    match event {
        GraceEvent::Left(inner) => inner == subscription.inner && call_ensures(
            InnerSub::unsubscribe,
            (inner,),
            (),
        ),
        GraceEvent::Asked(empty) => call_ensures(
            P::is_empty,
            (&subscription.subject.observers,),
            empty,
        ),
        GraceEvent::LetGo { pending, connection } => exists|section: Disconnect| #[trigger]
            call_ensures(
                StatePtr::update::<Disconnect>,
                (&subscription.state, section),
                (pending, connection),
            ),
        GraceEvent::Opened { epoch } => exists|section: OpenWindow| #[trigger]
            call_ensures(StatePtr::update::<OpenWindow>, (&subscription.state, section), epoch),
        GraceEvent::Scheduled { epoch, handle } => exists|task: GraceTask<P, StatePtr>|
            belongs_to(task, subscription, epoch) && #[trigger] call_ensures(
                Sch::schedule,
                (&subscription.scheduler, task, Some(subscription.grace)),
                handle,
            ),
        GraceEvent::Kept { epoch, handle, stale } => call_ensures(
            StatePtr::update::<KeepTimer<StatePtr::TaskHandle>>,
            (&subscription.state, KeepTimer { epoch, handle }),
            stale,
        ),
        GraceEvent::Cancelled(handle) => call_ensures(
            <StatePtr::TaskHandle as Subscription>::unsubscribe,
            (handle,),
            (),
        ),
        GraceEvent::Ended(connection) => call_ensures(
            <StatePtr::Unsub as Subscription>::unsubscribe,
            (connection,),
            (),
        ),
        _ => false,
    }
}

/// `event`, which is part of the reset `task`, is a call that was made on the
/// caller's values.
pub open spec fn reset_real<P, StatePtr>(
    task: GraceTask<P, StatePtr>,
    event: GraceEvent<StatePtr::Unsub, StatePtr::TaskHandle, ()>,
) -> bool where P: Subscribers, StatePtr: GraceCell {
    match event {
        GraceEvent::Expired { epoch, connection } => exists|section: Expire<P>|
            section.epoch() == epoch && section.subject() == task.subject()
                && #[trigger] call_ensures(
                StatePtr::update::<Expire<P>>,
                (&task.state(), section),
                connection,
            ),
        GraceEvent::Ended(connection) => call_ensures(
            <StatePtr::Unsub as Subscription>::unsubscribe,
            (connection,),
            (),
        ),
        _ => false,
    }
}

/// Subscribing to an operator is an arrival: the calls that it makes on the
/// state, the timer, the list and the source are those, in that order, and no
/// others.
pub proof fn law_subscribe_is_an_arrival<Observer, S, P, StatePtr, Sch>(
    operator: RefCountGrace<S, P, StatePtr, Sch>,
    observer: Observer,
    subscription: RefCountGraceSubscription<P, P::Unsub, StatePtr, Sch>,
) where
    S: CoreObservable<Subject<P>>,
    P: Clone + Observers<Observer>,
    StatePtr: Clone + SharedCell<Target = GraceState<S::Unsub, Sch::TaskHandle>>,
    Sch: Scheduler<GraceTask<P, StatePtr>>,

    requires
        call_ensures(
            <RefCountGrace<S, P, StatePtr, Sch> as CoreObservable<Observer>>::subscribe,
            (operator, observer),
            subscription,
        ),
    ensures
        subscription.state == operator.state,
        subscription.grace == operator.grace,
        subscription.scheduler == operator.scheduler,
        cloned(operator.connectable.subject.observers, subscription.subject.observers),
        exists|ledger: &mut GraceJournal<S::Unsub, Sch::TaskHandle, P::Unsub>|
            {
                &&& #[trigger] call_ensures(
                    RefCountGrace::<S, P, StatePtr, Sch>::subscribe_under::<
                        Observer,
                        GraceJournal<S::Unsub, Sch::TaskHandle, P::Unsub>,
                    >,
                    (operator, observer, ledger),
                    subscription,
                )
                &&& ledger@.len() == 0
                &&& arrives(subscription.inner, final(ledger)@)
                &&& forall|i: int|
                    0 <= i < final(ledger)@.len() ==> arrival_real(
                        operator,
                        observer,
                        subscription.subject,
                        #[trigger] final(ledger)@[i],
                    )
            },
{
    let ledger = choose|ledger: &mut GraceJournal<S::Unsub, Sch::TaskHandle, P::Unsub>|
        {
            &&& #[trigger] call_ensures(
                RefCountGrace::<S, P, StatePtr, Sch>::subscribe_under::<
                    Observer,
                    GraceJournal<S::Unsub, Sch::TaskHandle, P::Unsub>,
                >,
                (operator, observer, ledger),
                subscription,
            )
            &&& ledger@ == Seq::<GraceEvent<S::Unsub, Sch::TaskHandle, P::Unsub>>::empty()
        };
    law_subscribe_arrives::<
        S,
        P,
        StatePtr,
        Sch,
        Observer,
        GraceJournal<S::Unsub, Sch::TaskHandle, P::Unsub>,
    >(operator, observer, subscription);
    let events = final(ledger)@;
    assert(entered(ledger@, events) =~= events);
    assert forall|i: int| 0 <= i < events.len() implies arrival_real(
        operator,
        observer,
        subscription.subject,
        #[trigger] events[i],
    ) by {
        assert(arrival_true::<
            S,
            P,
            StatePtr,
            Sch,
            Observer,
            GraceJournal<S::Unsub, Sch::TaskHandle, P::Unsub>,
        >(operator, observer, subscription.subject, events[i]));
        if let GraceEvent::Joined(inner) = events[i] {
            let member = choose|member: Subject<P>|
                cloned(subscription.subject.observers, member.observers)
                    && #[trigger] <GraceJournal<
                    S::Unsub,
                    Sch::TaskHandle,
                    P::Unsub,
                > as GraceArrival<S, P, StatePtr, Observer>>::joined(member, observer, inner);
            assert(call_ensures(P::insert, (&member.observers, observer), inner));
        }
        if let GraceEvent::Arrived(arrival) = events[i] {
            let section = choose|section: Arrive| #[trigger]
                updated(operator.state, section, arrival);
            assert(call_ensures(
                StatePtr::update::<Arrive>,
                (&operator.state, section),
                arrival,
            ));
        }
    }
}

/// Ending a subscription is a departure: the calls that it makes on the list,
/// the state, the scheduler, the timer and the connection are those, in that
/// order, and no others.
pub proof fn law_unsubscribe_is_a_departure<P, InnerSub, StatePtr, Sch>(
    subscription: RefCountGraceSubscription<P, InnerSub, StatePtr, Sch>,
) where
    P: Subscribers,
    InnerSub: Subscription,
    StatePtr: Clone + GraceCell,
    Sch: Scheduler<GraceTask<P, StatePtr>, TaskHandle = StatePtr::TaskHandle>,

    requires
        call_ensures(
            <RefCountGraceSubscription<P, InnerSub, StatePtr, Sch> as Subscription>::unsubscribe,
            (subscription,),
            (),
        ),
    ensures
        exists|ledger: &mut GraceJournal<StatePtr::Unsub, StatePtr::TaskHandle, InnerSub>|
            {
                &&& #[trigger] call_ensures(
                    RefCountGraceSubscription::<P, InnerSub, StatePtr, Sch>::unsubscribe_under::<
                        GraceJournal<StatePtr::Unsub, StatePtr::TaskHandle, InnerSub>,
                    >,
                    (subscription, ledger),
                    (),
                )
                &&& ledger@.len() == 0
                &&& departs(subscription.inner, subscription.grace@, final(ledger)@)
                &&& forall|i: int|
                    0 <= i < final(ledger)@.len() ==> departure_real(
                        subscription,
                        #[trigger] final(ledger)@[i],
                    )
            },
{
    let ledger = choose|
        ledger: &mut GraceJournal<StatePtr::Unsub, StatePtr::TaskHandle, InnerSub>,
    |
        {
            &&& #[trigger] call_ensures(
                RefCountGraceSubscription::<P, InnerSub, StatePtr, Sch>::unsubscribe_under::<
                    GraceJournal<StatePtr::Unsub, StatePtr::TaskHandle, InnerSub>,
                >,
                (subscription, ledger),
                (),
            )
            &&& ledger@ == Seq::<
                GraceEvent<StatePtr::Unsub, StatePtr::TaskHandle, InnerSub>,
            >::empty()
        };
    law_unsubscribe_departs::<
        P,
        InnerSub,
        StatePtr,
        Sch,
        GraceJournal<StatePtr::Unsub, StatePtr::TaskHandle, InnerSub>,
    >(subscription);
    let events = final(ledger)@;
    assert(entered(ledger@, events) =~= events);
    assert forall|i: int| 0 <= i < events.len() implies departure_real(
        subscription,
        #[trigger] events[i],
    ) by {
        assert(departure_true::<
            P,
            StatePtr,
            Sch,
            GraceJournal<StatePtr::Unsub, StatePtr::TaskHandle, InnerSub>,
        >(subscription, events[i]));
        lemma_departure_real::<P, InnerSub, StatePtr, Sch>(subscription, events[i]);
    }
}

proof fn lemma_departure_real<P, InnerSub, StatePtr, Sch>(
    subscription: RefCountGraceSubscription<P, InnerSub, StatePtr, Sch>,
    event: GraceEvent<StatePtr::Unsub, StatePtr::TaskHandle, InnerSub>,
) where
    P: Subscribers,
    InnerSub: Subscription,
    StatePtr: Clone + GraceCell,
    Sch: Scheduler<GraceTask<P, StatePtr>, TaskHandle = StatePtr::TaskHandle>,

    requires
        departure_true::<
            P,
            StatePtr,
            Sch,
            GraceJournal<StatePtr::Unsub, StatePtr::TaskHandle, InnerSub>,
        >(subscription, event),
    ensures
        departure_real(subscription, event),
{
    match event {
        GraceEvent::LetGo { pending, connection } => {
            let section = choose|section: Disconnect| #[trigger]
                updated(subscription.state, section, (pending, connection));
            assert(call_ensures(
                StatePtr::update::<Disconnect>,
                (&subscription.state, section),
                (pending, connection),
            ));
        },
        GraceEvent::Opened { epoch } => {
            let section = choose|section: OpenWindow| #[trigger]
                updated(subscription.state, section, epoch);
            assert(call_ensures(
                StatePtr::update::<OpenWindow>,
                (&subscription.state, section),
                epoch,
            ));
        },
        GraceEvent::Scheduled { epoch, handle } => {
            let task = choose|task: GraceTask<P, StatePtr>| #[trigger]
                belongs_to(task, subscription, epoch) && <GraceJournal<
                    StatePtr::Unsub,
                    StatePtr::TaskHandle,
                    InnerSub,
                > as GraceDeparture<P, StatePtr, Sch>>::scheduled(
                    subscription.scheduler,
                    task,
                    subscription.grace,
                    handle,
                );
            assert(call_ensures(
                Sch::schedule,
                (&subscription.scheduler, task, Some(subscription.grace)),
                handle,
            ));
        },
        _ => {},
    }
}

/// One reset has turned `before` into `after`: the calls that it has made on the
/// state and on the connection are `events`, in that order, and no others.
pub open spec fn handled<P, StatePtr>(
    before: GraceTask<P, StatePtr>,
    after: GraceTask<P, StatePtr>,
    events: Seq<GraceEvent<StatePtr::Unsub, StatePtr::TaskHandle, ()>>,
) -> bool where P: Subscribers, StatePtr: GraceCell {
    &&& after.subject() == before.subject()
    &&& after.state() == before.state()
    &&& after.epoch() == before.epoch()
    &&& after.resets() == before.resets() + 1
    &&& resets(before.epoch(), events)
    &&& forall|i: int| 0 <= i < events.len() ==> reset_real(before, #[trigger] events[i])
}

proof fn lemma_reset_real<P, StatePtr>(
    task: GraceTask<P, StatePtr>,
    event: GraceEvent<StatePtr::Unsub, StatePtr::TaskHandle, ()>,
) where P: Subscribers, StatePtr: GraceCell
    requires
        reset_true::<P, StatePtr, GraceJournal<StatePtr::Unsub, StatePtr::TaskHandle, ()>>(
            task,
            event,
        ),
    ensures
        reset_real(task, event),
{
    if let GraceEvent::Expired { epoch, connection } = event {
        let section = choose|section: Expire<P>|
            section.epoch() == epoch && section.subject() == task.subject() && #[trigger] updated(
                task.state(),
                section,
                connection,
            );
        assert(call_ensures(
            StatePtr::update::<Expire<P>>,
            (&task.state(), section),
            connection,
        ));
    }
}

/// The handler of an expired window, and a task that a scheduler runs, carry out
/// one reset of that window, and are finished then.
pub proof fn law_handler_resets_once<P, StatePtr>(outcome: TaskState) where
    P: Subscribers,
    StatePtr: GraceCell,

    ensures
        forall|task: &mut GraceTask<P, StatePtr>|
            #![trigger call_ensures(grace_reset_handler::<P, StatePtr>, (task,), outcome)]
            #![trigger call_ensures(
                <GraceTask<P, StatePtr> as Task>::run,
                (task,),
                outcome,
            )]
            call_ensures(grace_reset_handler::<P, StatePtr>, (task,), outcome) || call_ensures(
                <GraceTask<P, StatePtr> as Task>::run,
                (task,),
                outcome,
            ) ==> {
                &&& outcome == TaskState::Finished
                &&& exists|
                    held: &mut GraceTask<P, StatePtr>,
                    ledger: &mut GraceJournal<StatePtr::Unsub, StatePtr::TaskHandle, ()>,
                |
                    {
                        &&& #[trigger] call_ensures(
                            GraceTask::<P, StatePtr>::reset_under::<
                                GraceJournal<StatePtr::Unsub, StatePtr::TaskHandle, ()>,
                            >,
                            (held, ledger),
                            outcome,
                        )
                        &&& *held == *task
                        &&& ledger@.len() == 0
                        &&& handled(*task, *final(task), final(ledger)@)
                    }
            },
{
    law_task_resets::<P, StatePtr, GraceJournal<StatePtr::Unsub, StatePtr::TaskHandle, ()>>(
        outcome,
    );
    assert forall|task: &mut GraceTask<P, StatePtr>|
        #![trigger call_ensures(grace_reset_handler::<P, StatePtr>, (task,), outcome)]
        #![trigger call_ensures(<GraceTask<P, StatePtr> as Task>::run, (task,), outcome)]
        call_ensures(grace_reset_handler::<P, StatePtr>, (task,), outcome) || call_ensures(
            <GraceTask<P, StatePtr> as Task>::run,
            (task,),
            outcome,
        ) implies {
        &&& outcome == TaskState::Finished
        &&& exists|
            held: &mut GraceTask<P, StatePtr>,
            ledger: &mut GraceJournal<StatePtr::Unsub, StatePtr::TaskHandle, ()>,
        |
            {
                &&& #[trigger] call_ensures(
                    GraceTask::<P, StatePtr>::reset_under::<
                        GraceJournal<StatePtr::Unsub, StatePtr::TaskHandle, ()>,
                    >,
                    (held, ledger),
                    outcome,
                )
                &&& *held == *task
                &&& ledger@.len() == 0
                &&& handled(*task, *final(task), final(ledger)@)
            }
    } by {
        let (held, ledger) = choose|
            held: &mut GraceTask<P, StatePtr>,
            ledger: &mut GraceJournal<StatePtr::Unsub, StatePtr::TaskHandle, ()>,
        |
            {
                &&& #[trigger] call_ensures(
                    GraceTask::<P, StatePtr>::reset_under::<
                        GraceJournal<StatePtr::Unsub, StatePtr::TaskHandle, ()>,
                    >,
                    (held, ledger),
                    outcome,
                )
                &&& *held == *task
                &&& *final(held) == *final(task)
                &&& ledger@ == Seq::<
                    GraceEvent<StatePtr::Unsub, StatePtr::TaskHandle, ()>,
                >::empty()
            };
        let events = final(ledger)@;
        assert(entered(ledger@, events) =~= events);
        assert forall|i: int| 0 <= i < events.len() implies reset_real(
            *task,
            #[trigger] events[i],
        ) by {
            assert(reset_true::<
                P,
                StatePtr,
                GraceJournal<StatePtr::Unsub, StatePtr::TaskHandle, ()>,
            >(*task, events[i]));
            lemma_reset_real(*task, events[i]);
        }
        assert(handled(*task, *final(task), events));
    }
}

/// A subscription is closed exactly if what takes its observer out of the list
/// says so.
pub proof fn law_closed_means_left<P, InnerSub, StatePtr, Sch>(
    subscription: RefCountGraceSubscription<P, InnerSub, StatePtr, Sch>,
    closed: bool,
) where
    P: Subscribers,
    InnerSub: Subscription,
    StatePtr: Clone + GraceCell,
    Sch: Scheduler<GraceTask<P, StatePtr>, TaskHandle = StatePtr::TaskHandle>,

    requires
        call_ensures(
            <RefCountGraceSubscription<P, InnerSub, StatePtr, Sch> as Subscription>::is_closed,
            (&subscription,),
            closed,
        ),
    ensures
        call_ensures(InnerSub::is_closed, (&subscription.inner,), closed),
{
}

/// A clone of an operator shares its source, its list, its state and its
/// scheduler, and has the same grace period.
pub proof fn law_clone_shares_everything<S: Clone, P: Clone, StatePtr: Clone, Sch: Clone>(
    operator: RefCountGrace<S, P, StatePtr, Sch>,
    copy: RefCountGrace<S, P, StatePtr, Sch>,
)
    requires
        call_ensures(<RefCountGrace<S, P, StatePtr, Sch> as Clone>::clone, (&operator,), copy),
    ensures
        cloned(operator.connectable.source, copy.connectable.source),
        cloned(operator.connectable.subject.observers, copy.connectable.subject.observers),
        cloned(operator.state, copy.state),
        copy.grace == operator.grace,
        cloned(operator.scheduler, copy.scheduler),
{
}

// ==================== The shared state ====================
/// What each section does to the state and reports of it.
pub proof fn law_sections_on_the_state<Unsub, TaskHandle>(
    before: GraceState<Unsub, TaskHandle>,
    after: GraceState<Unsub, TaskHandle>,
)
    ensures
        forall|section: Arrive, arrival: Arrival<TaskHandle>| #[trigger]
            section.effect(before, after, arrival) ==> {
                &&& after@.connection == before@.connection
                &&& after@.pending is None
                &&& after@.epoch == following(before@.epoch)
                &&& arrival.to_cancel == before@.pending
                &&& arrival.epoch == after@.epoch
                &&& arrival.needs_connect == (before@.connection is None)
            },
        forall|section: Park<Unsub>, redundant: Option<Unsub>| #[trigger]
            section.effect(before, after, redundant) ==> {
                let kept = before@.epoch == section.epoch && before@.connection is None;
                &&& after@.pending == before@.pending
                &&& after@.epoch == before@.epoch
                &&& kept ==> after@.connection == Some(section.connection) && redundant is None
                &&& !kept ==> after@.connection == before@.connection && redundant == Some(
                    section.connection,
                )
            },
        forall|section: Disconnect, parts: (Option<TaskHandle>, Option<Unsub>)| #[trigger]
            section.effect(before, after, parts) ==> {
                &&& parts.0 == before@.pending
                &&& parts.1 == before@.connection
                &&& after@.connection is None
                &&& after@.pending is None
                &&& after@.epoch == following(before@.epoch)
            },
        forall|section: OpenWindow, epoch: usize| #[trigger]
            section.effect(before, after, epoch) ==> {
                &&& after@.connection == before@.connection
                &&& after@.pending == before@.pending
                &&& after@.epoch == following(before@.epoch)
                &&& epoch == after@.epoch
            },
        forall|section: KeepTimer<TaskHandle>, stale: Option<TaskHandle>| #[trigger]
            section.effect(before, after, stale) ==> {
                let kept = before@.epoch == section.epoch;
                &&& after@.connection == before@.connection
                &&& after@.epoch == before@.epoch
                &&& kept ==> after@.pending == Some(section.handle) && stale is None
                &&& !kept ==> after@.pending == before@.pending && stale == Some(section.handle)
            },
{
}

/// What the section of a reset does to the state: nothing if the epoch has moved
/// on. Otherwise it goes by what the list answers: if it is empty, the
/// connection comes out and nothing is left; if it is not, the connection stays.
pub proof fn law_section_of_a_reset<'a, P: Subscribers, Unsub, TaskHandle>(
    section: Expire<'a, P>,
    before: GraceState<Unsub, TaskHandle>,
    after: GraceState<Unsub, TaskHandle>,
    connection: Option<Unsub>,
)
    requires
        section.effect(before, after, connection),
    ensures
        before@.epoch != section.epoch() ==> after@ == before@ && connection is None,
        before@.epoch == section.epoch() ==> exists|empty: bool|
            {
                &&& #[trigger] call_ensures(
                    P::is_empty,
                    (&section.subject().observers,),
                    empty,
                )
                &&& after@.pending is None
                &&& empty ==> {
                    &&& connection == before@.connection
                    &&& after@.connection is None
                    &&& after@.epoch == following(before@.epoch)
                }
                &&& !empty ==> {
                    &&& connection is None
                    &&& after@.connection == before@.connection
                    &&& after@.epoch == before@.epoch
                }
            },
{
    if before@.epoch == section.epoch() {
        let empty = choose|empty: bool| #[trigger]
            found_empty(section.subject(), empty) && after@ == before@.expire(
                section.epoch(),
                empty,
            ) && connection == before@.expired(section.epoch(), empty);
        assert(call_ensures(P::is_empty, (&section.subject().observers,), empty));
    }
}

// ==================== What comes of it ====================
/// What `system` becomes when `slot` goes through `events` with nothing in
/// between, if it can: each of them has to be what comes next, and to be what
/// the shared state, the subject and the scheduler answer.
pub open spec fn alone<Unsub, TaskHandle, InnerSub>(
    system: System<Unsub, TaskHandle>,
    slot: int,
    events: Seq<GraceEvent<Unsub, TaskHandle, InnerSub>>,
    grace: nat,
) -> Option<System<Unsub, TaskHandle>>
    decreases events.len(),
{
    if events.len() == 0 {
        Some(system)
    } else {
        let step = Step::Take { slot, event: events[0] };
        if system.enabled(step, grace) {
            alone(system.after(step, grace), slot, events.skip(1), grace)
        } else {
            None
        }
    }
}

/// What `system` becomes by the event of `slot` at the head of `events`.
spec fn next<Unsub, TaskHandle, InnerSub>(
    system: System<Unsub, TaskHandle>,
    slot: int,
    events: Seq<GraceEvent<Unsub, TaskHandle, InnerSub>>,
    grace: nat,
) -> System<Unsub, TaskHandle> {
    system.after((Step::Take { slot, event: events[0] }), grace)
}

proof fn lemma_alone_next<Unsub, TaskHandle, InnerSub>(
    system: System<Unsub, TaskHandle>,
    slot: int,
    events: Seq<GraceEvent<Unsub, TaskHandle, InnerSub>>,
    grace: nat,
)
    requires
        events.len() > 0,
        alone(system, slot, events, grace) is Some,
    ensures
        system.enabled((Step::Take { slot, event: events[0] }), grace),
        alone(system, slot, events, grace) == alone(
            next(system, slot, events, grace),
            slot,
            events.skip(1),
            grace,
        ),
{
}

/// What comes of an arrival with nothing in between, whoever was there before
/// and whatever windows have come and gone: the observer is in the list, no
/// window is left open, and the source is connected. If it was connected, it is
/// left alone; if not, it has been connected once, and that connection is kept.
pub open spec fn arrived_alone<Unsub, TaskHandle>(
    before: System<Unsub, TaskHandle>,
    slot: int,
    after: System<Unsub, TaskHandle>,
) -> bool {
    &&& after.observers =~= before.observers.insert(slot)
    &&& after.slots =~= before.slots.update(slot, Slot::Subscribed)
    &&& after.state.pending is None
    &&& after.state.epoch == following(before.state.epoch)
    &&& before.state.pending matches Some(handle) ==> after.cancelled.contains(handle)
    &&& after.state.connection is Some
    &&& before.state.connection is Some ==> {
        &&& after.state.connection == before.state.connection
        &&& after.live == before.live
    }
    &&& before.state.connection is None ==> after.live == before.live.insert(
        after.state.connection->0,
    )
}

/// What comes of a departure with nothing in between. While others remain,
/// nothing changes but the list. Otherwise, without a grace period, nothing is
/// kept and what was kept has been ended; with any other, the connection stays
/// and a window is open.
pub open spec fn departed_alone<Unsub, TaskHandle>(
    before: System<Unsub, TaskHandle>,
    slot: int,
    nanos: nat,
    after: System<Unsub, TaskHandle>,
) -> bool {
    let remaining = before.observers.remove(slot);
    &&& after.observers =~= remaining
    &&& after.slots =~= before.slots.update(slot, Slot::Closed)
    &&& remaining != Set::<int>::empty() ==> {
        &&& after.state == before.state
        &&& after.live == before.live
        &&& after.timers == before.timers
        &&& after.cancelled == before.cancelled
        &&& after.due == before.due
    }
    &&& remaining =~= Set::<int>::empty() && nanos == 0 ==> {
        &&& after.state.connection is None
        &&& after.state.pending is None
        &&& after.live == match before.state.connection {
            Some(connection) => before.live.remove(connection),
            None => before.live,
        }
        &&& before.state.pending matches Some(handle) ==> after.cancelled.contains(handle)
        &&& after.timers == before.timers
        &&& after.due == before.due
    }
    &&& remaining =~= Set::<int>::empty() && nanos > 0 ==> {
        &&& after.state.connection == before.state.connection
        &&& after.live == before.live
        &&& after.window_open()
        &&& after.state.pending matches Some(handle) && !before.timers.contains_key(handle)
            && after.timers == before.timers.insert(handle, after.state.epoch)
    }
}

/// What comes of a reset with nothing in between: if its window is still the
/// current one and nobody is there, nothing is kept and what was kept has been
/// ended; otherwise the connection is left alone.
pub open spec fn reset_alone<Unsub, TaskHandle>(
    before: System<Unsub, TaskHandle>,
    slot: int,
    epoch: usize,
    after: System<Unsub, TaskHandle>,
) -> bool {
    &&& after.observers == before.observers
    &&& after.slots =~= before.slots.update(slot, Slot::Closed)
    &&& before.state.epoch == epoch && before.subject_empty() ==> {
        &&& after.state.connection is None
        &&& after.state.pending is None
        &&& after.live == match before.state.connection {
            Some(connection) => before.live.remove(connection),
            None => before.live,
        }
    }
    &&& before.state.epoch != epoch || !before.subject_empty() ==> {
        &&& after.state.connection == before.state.connection
        &&& after.state.epoch == before.state.epoch
        &&& after.live == before.live
    }
}

proof fn lemma_arrived_alone<Unsub, TaskHandle, InnerSub>(
    system: System<Unsub, TaskHandle>,
    slot: int,
    inner: InnerSub,
    events: Seq<GraceEvent<Unsub, TaskHandle, InnerSub>>,
    grace: nat,
    after: System<Unsub, TaskHandle>,
)
    requires
        arrives(inner, events),
        alone(system, slot, events, grace) == Some(after),
    ensures
        arrived_alone(system, slot, after),
{
    lemma_alone_next(system, slot, events, grace);
    let one = next(system, slot, events, grace);
    let rest = events.skip(1);
    let arrival = events[0]->Arrived_0;
    if arrival.to_cancel is Some {
        lemma_alone_next(one, slot, rest, grace);
        let two = next(one, slot, rest, grace);
        assert(rest.skip(1) =~= events.skip(2));
        lemma_joined_alone(two, slot, inner, arrival, events, 2, grace, after);
    } else {
        lemma_joined_alone(one, slot, inner, arrival, events, 1, grace, after);
    }
}

proof fn lemma_joined_alone<Unsub, TaskHandle, InnerSub>(
    system: System<Unsub, TaskHandle>,
    slot: int,
    inner: InnerSub,
    arrival: Arrival<TaskHandle>,
    events: Seq<GraceEvent<Unsub, TaskHandle, InnerSub>>,
    at: int,
    grace: nat,
    after: System<Unsub, TaskHandle>,
)
    requires
        0 <= at,
        joins(inner, arrival, events, at),
        alone(system, slot, events.skip(at), grace) == Some(after),
        arrival.epoch == system.state.epoch,
        arrival.needs_connect == (system.state.connection is None),
        system.slots[slot] == (Slot::<Unsub, TaskHandle>::Joining {
            epoch: arrival.epoch,
            needs_connect: arrival.needs_connect,
        }),
    ensures
        after.observers =~= system.observers.insert(slot),
        after.slots =~= system.slots.update(slot, Slot::Subscribed),
        after.state.pending == system.state.pending,
        after.state.epoch == system.state.epoch,
        after.cancelled == system.cancelled,
        after.state.connection is Some,
        system.state.connection is Some ==> after.state.connection == system.state.connection
            && after.live == system.live,
        system.state.connection is None ==> after.live == system.live.insert(
            after.state.connection->0,
        ),
{
    let rest = events.skip(at);
    lemma_alone_next(system, slot, rest, grace);
    let one = next(system, slot, rest, grace);
    if arrival.needs_connect {
        let second = rest.skip(1);
        lemma_alone_next(one, slot, second, grace);
        let two = next(one, slot, second, grace);
        let third = second.skip(1);
        assert(third[0] == events[at + 2]);
        lemma_alone_next(two, slot, third, grace);
        assert(third.skip(1).len() == 0);
    }
}

proof fn lemma_departed_alone<Unsub, TaskHandle, InnerSub>(
    system: System<Unsub, TaskHandle>,
    slot: int,
    inner: InnerSub,
    events: Seq<GraceEvent<Unsub, TaskHandle, InnerSub>>,
    grace: nat,
    after: System<Unsub, TaskHandle>,
)
    requires
        departs(inner, grace, events),
        alone(system, slot, events, grace) == Some(after),
        forall|handle: TaskHandle| #[trigger]
            system.cancelled.contains(handle) ==> system.timers.contains_key(handle),
    ensures
        departed_alone(system, slot, grace, after),
{
    broadcast use vstd::multiset::group_multiset_axioms;

    lemma_alone_next(system, slot, events, grace);
    let one = next(system, slot, events, grace);
    let second = events.skip(1);
    lemma_alone_next(one, slot, second, grace);
    let two = next(one, slot, second, grace);
    let third = second.skip(1);
    if events.len() > 2 {
        assert(third[0] == events[2]);
        lemma_alone_next(two, slot, third, grace);
        let three = next(two, slot, third, grace);
        let fourth = third.skip(1);
        if events.len() > 3 {
            assert(fourth[0] == events[3]);
            lemma_alone_next(three, slot, fourth, grace);
            let four = next(three, slot, fourth, grace);
            let fifth = fourth.skip(1);
            if events.len() > 4 {
                assert(fifth[0] == events[4]);
                lemma_alone_next(four, slot, fifth, grace);
                let five = next(four, slot, fifth, grace);
                let sixth = fifth.skip(1);
                if events.len() > 5 {
                    lemma_alone_next(five, slot, sixth, grace);
                }
                if grace > 0 {
                    let handle = events[3]->Scheduled_handle;
                    assert(after.timers.contains_key(handle));
                }
            }
        }
    }
}

/// What comes of an arrival with nothing in between, under any ledger.
pub proof fn law_arrival_leaves_the_source_connected<S, P, StatePtr, Sch, Observer, L>(
    operator: RefCountGrace<S, P, StatePtr, Sch>,
    observer: Observer,
    subscription: RefCountGraceSubscription<P, L::InnerSub, StatePtr, Sch>,
    system: System<L::Unsub, L::TaskHandle>,
    slot: int,
    after: System<L::Unsub, L::TaskHandle>,
) where P: Clone, L: GraceArrival<S, P, StatePtr, Observer>
    ensures
        forall|ledger: &mut L|
            #![trigger call_ensures(
                RefCountGrace::<S, P, StatePtr, Sch>::subscribe_under::<Observer, L>,
                (operator, observer, ledger),
                subscription,
            )]
            {
                &&& call_ensures(
                    RefCountGrace::<S, P, StatePtr, Sch>::subscribe_under::<Observer, L>,
                    (operator, observer, ledger),
                    subscription,
                )
                &&& alone(
                    system,
                    slot,
                    entered(ledger.log(), final(ledger).log()),
                    operator.grace@,
                ) == Some(after)
            } ==> arrived_alone(system, slot, after),
{
    law_subscribe_arrives::<S, P, StatePtr, Sch, Observer, L>(operator, observer, subscription);
    assert forall|ledger: &mut L|
        #![trigger call_ensures(
            RefCountGrace::<S, P, StatePtr, Sch>::subscribe_under::<Observer, L>,
            (operator, observer, ledger),
            subscription,
        )]
        {
            &&& call_ensures(
                RefCountGrace::<S, P, StatePtr, Sch>::subscribe_under::<Observer, L>,
                (operator, observer, ledger),
                subscription,
            )
            &&& alone(
                system,
                slot,
                entered(ledger.log(), final(ledger).log()),
                operator.grace@,
            ) == Some(after)
        } implies arrived_alone(system, slot, after) by {
        lemma_arrived_alone(
            system,
            slot,
            subscription.inner,
            entered(ledger.log(), final(ledger).log()),
            operator.grace@,
            after,
        );
    }
}

/// What comes of a departure with nothing in between, under any ledger.
pub proof fn law_departure_goes_by_the_grace_period<P, InnerSub, StatePtr, Sch, L>(
    subscription: RefCountGraceSubscription<P, InnerSub, StatePtr, Sch>,
    system: System<L::Unsub, L::TaskHandle>,
    slot: int,
    after: System<L::Unsub, L::TaskHandle>,
) where StatePtr: Clone, L: GraceDeparture<P, StatePtr, Sch, InnerSub = InnerSub>
    requires
        forall|handle: L::TaskHandle| #[trigger]
            system.cancelled.contains(handle) ==> system.timers.contains_key(handle),
    ensures
        forall|ledger: &mut L|
            #![trigger call_ensures(
                RefCountGraceSubscription::<P, InnerSub, StatePtr, Sch>::unsubscribe_under::<L>,
                (subscription, ledger),
                (),
            )]
            {
                &&& call_ensures(
                    RefCountGraceSubscription::<P, InnerSub, StatePtr, Sch>::unsubscribe_under::<L>,
                    (subscription, ledger),
                    (),
                )
                &&& alone(
                    system,
                    slot,
                    entered(ledger.log(), final(ledger).log()),
                    subscription.grace@,
                ) == Some(after)
            } ==> departed_alone(system, slot, subscription.grace@, after),
{
    law_unsubscribe_departs::<P, InnerSub, StatePtr, Sch, L>(subscription);
    assert forall|ledger: &mut L|
        #![trigger call_ensures(
            RefCountGraceSubscription::<P, InnerSub, StatePtr, Sch>::unsubscribe_under::<L>,
            (subscription, ledger),
            (),
        )]
        {
            &&& call_ensures(
                RefCountGraceSubscription::<P, InnerSub, StatePtr, Sch>::unsubscribe_under::<L>,
                (subscription, ledger),
                (),
            )
            &&& alone(
                system,
                slot,
                entered(ledger.log(), final(ledger).log()),
                subscription.grace@,
            ) == Some(after)
        } implies departed_alone(system, slot, subscription.grace@, after) by {
        lemma_departed_alone(
            system,
            slot,
            subscription.inner,
            entered(ledger.log(), final(ledger).log()),
            subscription.grace@,
            after,
        );
    }
}

/// What comes of a reset with nothing in between, under any ledger.
pub proof fn law_reset_releases_an_unused_source<P, StatePtr, L>(
    system: System<L::Unsub, L::TaskHandle>,
    slot: int,
    grace: nat,
    outcome: TaskState,
    after: System<L::Unsub, L::TaskHandle>,
) where L: GraceReset<P, StatePtr>
    ensures
        forall|task: &mut GraceTask<P, StatePtr>, ledger: &mut L|
            #![trigger call_ensures(
                GraceTask::<P, StatePtr>::reset_under::<L>,
                (task, ledger),
                outcome,
            )]
            {
                &&& call_ensures(
                    GraceTask::<P, StatePtr>::reset_under::<L>,
                    (task, ledger),
                    outcome,
                )
                &&& alone(system, slot, entered(ledger.log(), final(ledger).log()), grace)
                    == Some(after)
            } ==> reset_alone(system, slot, task.epoch(), after),
{
    law_task_resets::<P, StatePtr, L>(outcome);
    assert forall|task: &mut GraceTask<P, StatePtr>, ledger: &mut L|
        #![trigger call_ensures(
            GraceTask::<P, StatePtr>::reset_under::<L>,
            (task, ledger),
            outcome,
        )]
        {
            &&& call_ensures(
                GraceTask::<P, StatePtr>::reset_under::<L>,
                (task, ledger),
                outcome,
            )
            &&& alone(system, slot, entered(ledger.log(), final(ledger).log()), grace) == Some(
                after,
            )
        } implies reset_alone(system, slot, task.epoch(), after) by {
        let events = entered(ledger.log(), final(ledger).log());
        lemma_alone_next(system, slot, events, grace);
        let one = next(system, slot, events, grace);
        if events.len() > 1 {
            lemma_alone_next(one, slot, events.skip(1), grace);
            assert(events.skip(1).skip(1).len() == 0);
        }
    }
}

// ==================== Nothing goes past the ledger ====================
/// Under any ledger, each thing that every operation can do is done to the
/// value that it is about, and is entered, and nothing else is.
pub proof fn law_every_call_is_entered<L>() where L: GraceLedger
    ensures
        forall|ledger: &mut L, handle: L::TaskHandle| #[trigger]
            call_ensures(L::cancel, (ledger, handle), ()) ==> {
                &&& L::cancelled(handle)
                &&& final(ledger).log() == ledger.log().push(GraceEvent::Cancelled(handle))
            },
        forall|ledger: &mut L, connection: L::Unsub| #[trigger]
            call_ensures(L::end, (ledger, connection), ()) ==> {
                &&& L::ended(connection)
                &&& final(ledger).log() == ledger.log().push(GraceEvent::Ended(connection))
            },
{
}

/// Under any ledger, each thing that a subscriber can do as it arrives is done to
/// the value that it is about, and is entered, and nothing else is.
pub proof fn law_every_call_of_an_arrival_is_entered<S, P, StatePtr, Observer, L>() where
    L: GraceArrival<S, P, StatePtr, Observer>,

    ensures
        forall|
            ledger: &mut L,
            state: StatePtr,
            section: Arrive,
            arrival: Arrival<L::TaskHandle>,
        | #[trigger]
            call_ensures(L::arrive, (ledger, &state, section), arrival) ==> {
                &&& L::arrived(state, arrival)
                &&& final(ledger).log() == ledger.log().push(GraceEvent::Arrived(arrival))
            },
        forall|
            ledger: &mut L,
            subject: Subject<P>,
            observer: Observer,
            inner: L::InnerSub,
        | #[trigger]
            call_ensures(L::join, (ledger, subject, observer), inner) ==> {
                &&& L::joined(subject, observer, inner)
                &&& final(ledger).log() == ledger.log().push(GraceEvent::Joined(inner))
            },
        forall|
            ledger: &mut L,
            connectable: ConnectableObservable<S, P>,
            connection: L::Unsub,
        | #[trigger]
            call_ensures(L::connect, (ledger, connectable), connection) ==> {
                &&& L::connected(connectable, connection)
                &&& final(ledger).log() == ledger.log().push(GraceEvent::Connected(connection))
            },
        forall|
            ledger: &mut L,
            state: StatePtr,
            section: Park<L::Unsub>,
            redundant: Option<L::Unsub>,
        | #[trigger]
            call_ensures(L::park, (ledger, &state, section), redundant) ==> {
                &&& L::parked(state, section.epoch, section.connection, redundant)
                &&& final(ledger).log() == ledger.log().push(
                    (GraceEvent::Parked {
                        epoch: section.epoch,
                        connection: section.connection,
                        redundant,
                    }),
                )
            },
{
}

/// Under any ledger, each thing that a subscriber can do as it leaves is done to
/// the value that it is about, and is entered, and nothing else is.
pub proof fn law_every_call_of_a_departure_is_entered<P, StatePtr, Sch, L>() where
    L: GraceDeparture<P, StatePtr, Sch>,

    ensures
        forall|ledger: &mut L, inner: L::InnerSub| #[trigger]
            call_ensures(L::leave, (ledger, inner), ()) ==> {
                &&& L::left(inner)
                &&& final(ledger).log() == ledger.log().push(GraceEvent::Left(inner))
            },
        forall|ledger: &mut L, subject: Subject<P>, empty: bool| #[trigger]
            call_ensures(L::ask, (ledger, &subject), empty) ==> {
                &&& L::asked(subject, empty)
                &&& final(ledger).log() == ledger.log().push(GraceEvent::Asked(empty))
            },
        forall|
            ledger: &mut L,
            state: StatePtr,
            section: Disconnect,
            pending: Option<L::TaskHandle>,
            connection: Option<L::Unsub>,
        | #[trigger]
            call_ensures(L::let_go, (ledger, &state, section), (pending, connection)) ==> {
                &&& L::let_go_of(state, pending, connection)
                &&& final(ledger).log() == ledger.log().push(
                    (GraceEvent::LetGo { pending, connection }),
                )
            },
        forall|ledger: &mut L, state: StatePtr, section: OpenWindow, epoch: usize| #[trigger]
            call_ensures(L::open, (ledger, &state, section), epoch) ==> {
                &&& L::opened(state, epoch)
                &&& final(ledger).log() == ledger.log().push((GraceEvent::Opened { epoch }))
            },
        forall|
            ledger: &mut L,
            scheduler: Sch,
            task: GraceTask<P, StatePtr>,
            delay: Duration,
            handle: L::TaskHandle,
        | #[trigger]
            call_ensures(L::schedule, (ledger, &scheduler, task, delay), handle) ==> {
                &&& L::scheduled(scheduler, task, delay, handle)
                &&& final(ledger).log() == ledger.log().push(
                    (GraceEvent::Scheduled { epoch: task.epoch(), handle }),
                )
            },
        forall|
            ledger: &mut L,
            state: StatePtr,
            section: KeepTimer<L::TaskHandle>,
            stale: Option<L::TaskHandle>,
        | #[trigger]
            call_ensures(L::keep, (ledger, &state, section), stale) ==> {
                &&& L::kept(state, section.epoch, section.handle, stale)
                &&& final(ledger).log() == ledger.log().push(
                    (GraceEvent::Kept { epoch: section.epoch, handle: section.handle, stale }),
                )
            },
{
}

/// Under any ledger, what a reset can do is done to the value that it is about,
/// and is entered, and nothing else is.
pub proof fn law_every_call_of_a_reset_is_entered<P, StatePtr, L>() where
    L: GraceReset<P, StatePtr>,

    ensures
        forall|
            ledger: &mut L,
            state: StatePtr,
            section: Expire<P>,
            connection: Option<L::Unsub>,
        | #[trigger]
            call_ensures(L::expire, (ledger, &state, section), connection) ==> {
                &&& L::expired(state, section.epoch(), section.subject(), connection)
                &&& final(ledger).log() == ledger.log().push(
                    (GraceEvent::Expired { epoch: section.epoch(), connection }),
                )
            },
{
}

// ==================== In plain words ====================
/// Subscribing tells the state of the operator; the timer that it hands out has
/// been cancelled; the observer is in the list. If the state says that a
/// connection is needed, the source has been connected to the subject, and that
/// connection has been offered to the state under the epoch that the state has
/// just reported; if it came back, it has been ended.
pub proof fn law_subscribing_connects_when_told<Observer, S, P, StatePtr, Sch>(
    operator: RefCountGrace<S, P, StatePtr, Sch>,
    observer: Observer,
    subscription: RefCountGraceSubscription<P, P::Unsub, StatePtr, Sch>,
) where
    S: CoreObservable<Subject<P>>,
    P: Clone + Observers<Observer>,
    StatePtr: Clone + SharedCell<Target = GraceState<S::Unsub, Sch::TaskHandle>>,
    Sch: Scheduler<GraceTask<P, StatePtr>>,

    requires
        call_ensures(
            <RefCountGrace<S, P, StatePtr, Sch> as CoreObservable<Observer>>::subscribe,
            (operator, observer),
            subscription,
        ),
    ensures
        exists|section: Arrive, arrival: Arrival<Sch::TaskHandle>|
            {
                &&& #[trigger] call_ensures(
                    StatePtr::update::<Arrive>,
                    (&operator.state, section),
                    arrival,
                )
                &&& arrival.to_cancel matches Some(handle) ==> call_ensures(
                    <Sch::TaskHandle as Subscription>::unsubscribe,
                    (handle,),
                    (),
                )
                &&& arrival.needs_connect ==> exists|
                    connection: S::Unsub,
                    redundant: Option<S::Unsub>,
                |
                    {
                        &&& call_ensures(
                            S::subscribe,
                            (operator.connectable.source, operator.connectable.subject),
                            connection,
                        )
                        &&& #[trigger] call_ensures(
                            StatePtr::update::<Park<S::Unsub>>,
                            (&operator.state, Park { epoch: arrival.epoch, connection }),
                            redundant,
                        )
                        &&& redundant matches Some(back) ==> call_ensures(
                            <S::Unsub as Subscription>::unsubscribe,
                            (back,),
                            (),
                        )
                    }
            },
        exists|member: Subject<P>|
            cloned(subscription.subject.observers, member.observers) && #[trigger] call_ensures(
                P::insert,
                (&member.observers, observer),
                subscription.inner,
            ),
{
    law_subscribe_is_an_arrival(operator, observer, subscription);
    let ledger = choose|ledger: &mut GraceJournal<S::Unsub, Sch::TaskHandle, P::Unsub>|
        {
            &&& #[trigger] call_ensures(
                RefCountGrace::<S, P, StatePtr, Sch>::subscribe_under::<
                    Observer,
                    GraceJournal<S::Unsub, Sch::TaskHandle, P::Unsub>,
                >,
                (operator, observer, ledger),
                subscription,
            )
            &&& ledger@.len() == 0
            &&& arrives(subscription.inner, final(ledger)@)
            &&& forall|i: int|
                0 <= i < final(ledger)@.len() ==> arrival_real(
                    operator,
                    observer,
                    subscription.subject,
                    #[trigger] final(ledger)@[i],
                )
        };
    let events = final(ledger)@;
    let arrival = events[0]->Arrived_0;
    assert(arrival_real(operator, observer, subscription.subject, events[0]));
    let section = choose|section: Arrive| #[trigger]
        call_ensures(StatePtr::update::<Arrive>, (&operator.state, section), arrival);
    let at: int = if arrival.to_cancel is Some {
        2
    } else {
        1
    };
    if arrival.to_cancel is Some {
        assert(arrival_real(operator, observer, subscription.subject, events[1]));
    }
    assert(arrival_real(operator, observer, subscription.subject, events[at]));
    if arrival.needs_connect {
        let connection = events[at + 1]->Connected_0;
        let redundant = events[at + 2]->redundant;
        assert(arrival_real(operator, observer, subscription.subject, events[at + 1]));
        assert(arrival_real(operator, observer, subscription.subject, events[at + 2]));
        if redundant is Some {
            assert(arrival_real(operator, observer, subscription.subject, events[at + 3]));
        }
        assert(call_ensures(
            StatePtr::update::<Park<S::Unsub>>,
            (&operator.state, Park { epoch: arrival.epoch, connection }),
            redundant,
        ));
    }
    assert(call_ensures(StatePtr::update::<Arrive>, (&operator.state, section), arrival));
}

/// Ending a subscription takes the observer out of the list, and asks the list
/// whether it is empty. If it is, and the grace period has a nanosecond or more,
/// a window has been opened in the state, and a reset of that window has been
/// given to the scheduler with the whole grace period as its delay; its timer
/// has been offered to the state. If it is and there is no grace period, the
/// source has been let go in the state, and the connection that came out has
/// been ended.
pub proof fn law_unsubscribing_goes_by_the_grace_period<P, InnerSub, StatePtr, Sch>(
    subscription: RefCountGraceSubscription<P, InnerSub, StatePtr, Sch>,
) where
    P: Subscribers,
    InnerSub: Subscription,
    StatePtr: Clone + GraceCell,
    Sch: Scheduler<GraceTask<P, StatePtr>, TaskHandle = StatePtr::TaskHandle>,

    requires
        call_ensures(
            <RefCountGraceSubscription<P, InnerSub, StatePtr, Sch> as Subscription>::unsubscribe,
            (subscription,),
            (),
        ),
    ensures
        call_ensures(InnerSub::unsubscribe, (subscription.inner,), ()),
        exists|empty: bool|
            {
                &&& #[trigger] call_ensures(
                    P::is_empty,
                    (&subscription.subject.observers,),
                    empty,
                )
                &&& empty && subscription.grace@ > 0 ==> exists|
                    section: OpenWindow,
                    epoch: usize,
                    task: GraceTask<P, StatePtr>,
                    handle: StatePtr::TaskHandle,
                    stale: Option<StatePtr::TaskHandle>,
                |
                    {
                        &&& #[trigger] call_ensures(
                            StatePtr::update::<OpenWindow>,
                            (&subscription.state, section),
                            epoch,
                        )
                        &&& belongs_to(task, subscription, epoch)
                        &&& #[trigger] call_ensures(
                            Sch::schedule,
                            (&subscription.scheduler, task, Some(subscription.grace)),
                            handle,
                        )
                        &&& #[trigger] call_ensures(
                            StatePtr::update::<KeepTimer<StatePtr::TaskHandle>>,
                            (&subscription.state, KeepTimer { epoch, handle }),
                            stale,
                        )
                        &&& stale matches Some(back) ==> call_ensures(
                            <StatePtr::TaskHandle as Subscription>::unsubscribe,
                            (back,),
                            (),
                        )
                    }
                &&& empty && subscription.grace@ == 0 ==> exists|
                    section: Disconnect,
                    pending: Option<StatePtr::TaskHandle>,
                    connection: Option<StatePtr::Unsub>,
                |
                    {
                        &&& #[trigger] call_ensures(
                            StatePtr::update::<Disconnect>,
                            (&subscription.state, section),
                            (pending, connection),
                        )
                        &&& pending matches Some(handle) ==> call_ensures(
                            <StatePtr::TaskHandle as Subscription>::unsubscribe,
                            (handle,),
                            (),
                        )
                        &&& connection matches Some(made) ==> call_ensures(
                            <StatePtr::Unsub as Subscription>::unsubscribe,
                            (made,),
                            (),
                        )
                    }
            },
{
    law_unsubscribe_is_a_departure(subscription);
    let ledger = choose|
        ledger: &mut GraceJournal<StatePtr::Unsub, StatePtr::TaskHandle, InnerSub>,
    |
        {
            &&& #[trigger] call_ensures(
                RefCountGraceSubscription::<P, InnerSub, StatePtr, Sch>::unsubscribe_under::<
                    GraceJournal<StatePtr::Unsub, StatePtr::TaskHandle, InnerSub>,
                >,
                (subscription, ledger),
                (),
            )
            &&& ledger@.len() == 0
            &&& departs(subscription.inner, subscription.grace@, final(ledger)@)
            &&& forall|i: int|
                0 <= i < final(ledger)@.len() ==> departure_real(
                    subscription,
                    #[trigger] final(ledger)@[i],
                )
        };
    let events = final(ledger)@;
    let empty = events[1]->Asked_0;
    assert(departure_real(subscription, events[0]));
    assert(departure_real(subscription, events[1]));
    if empty && subscription.grace@ > 0 {
        let epoch = events[2]->Opened_epoch;
        let handle = events[3]->Scheduled_handle;
        let stale = events[4]->stale;
        assert(departure_real(subscription, events[2]));
        assert(departure_real(subscription, events[3]));
        assert(departure_real(subscription, events[4]));
        if stale is Some {
            assert(departure_real(subscription, events[5]));
        }
        let section = choose|section: OpenWindow| #[trigger]
            call_ensures(StatePtr::update::<OpenWindow>, (&subscription.state, section), epoch);
        let task = choose|task: GraceTask<P, StatePtr>|
            belongs_to(task, subscription, epoch) && #[trigger] call_ensures(
                Sch::schedule,
                (&subscription.scheduler, task, Some(subscription.grace)),
                handle,
            );
        assert(call_ensures(
            StatePtr::update::<OpenWindow>,
            (&subscription.state, section),
            epoch,
        ));
        assert(call_ensures(
            Sch::schedule,
            (&subscription.scheduler, task, Some(subscription.grace)),
            handle,
        ));
    } else if empty {
        let pending = events[2]->pending;
        let connection = events[2]->LetGo_connection;
        assert(departure_real(subscription, events[2]));
        if pending is Some {
            assert(departure_real(subscription, events[3]));
        }
        if connection is Some {
            assert(departure_real(subscription, events.last()));
        }
        let section = choose|section: Disconnect| #[trigger]
            call_ensures(
                StatePtr::update::<Disconnect>,
                (&subscription.state, section),
                (pending, connection),
            );
        assert(call_ensures(
            StatePtr::update::<Disconnect>,
            (&subscription.state, section),
            (pending, connection),
        ));
    }
}

} // verus!
