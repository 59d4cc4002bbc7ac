//! What the operations of a [`RefCount`] are for.
//!
//! The laws start from the calls themselves, on the caller's values or under
//! any ledger. They say in which order things happen and under which condition,
//! that each of them has happened to the right value, and what has become of the
//! observers and the connection when the call is over.

use crate::context::{updated, Section, SharedCell, Subscription};
use crate::ref_count::{
    disconnected, joined_clone, left_by, stay_events, subscribe_events, subscribed_by, take_events,
    went_on, Connecting, ConnectionCell, IsVacant, RefCount, RefCountSubscription, Store, Take,
};
use crate::ref_count_journal::RefCountJournal;
use crate::ref_count_ledger::{RefCountArrival, RefCountDeparture, RefCountEvent};
use crate::ref_count_runs::{
    law_stay_is_a_path, law_subscribe_is_a_path, law_take_is_a_path, path, Slot, Step, System,
};
use crate::subject::{ConnectableObservable, CoreObservable, Observers, Subject, Subscribers};
use vstd::prelude::*;

verus! {

/// What has been entered between `before` and `after`.
pub open spec fn entered<Event>(before: Seq<Event>, after: Seq<Event>) -> Seq<Event> {
    after.skip(before.len() as int)
}

// ==================== In which order ====================
/// An arrival: the observer joins, then the observers are counted. Unless there
/// is exactly one, that is all. Then the slot is looked into. Unless it is
/// vacant, that is all. Then the source is connected, and that very connection
/// is stored.
pub open spec fn arrives<Unsub, InnerSub>(
    inner: InnerSub,
    events: Seq<RefCountEvent<Unsub, InnerSub>>,
) -> bool {
    &&& events.len() >= 2
    &&& events[0] == RefCountEvent::<Unsub, InnerSub>::Joined(inner)
    &&& events[1] matches RefCountEvent::Counted(count) && if count != 1 {
        events.len() == 2
    } else {
        &&& events.len() >= 3
        &&& events[2] matches RefCountEvent::Looked(vacant) && if !vacant {
            events.len() == 3
        } else {
            &&& events.len() == 5
            &&& events[3] matches RefCountEvent::Connected(connection) && events[4]
                == RefCountEvent::<Unsub, InnerSub>::Stored(connection)
        }
    }
}

/// A departure: the observer leaves, then the subject is asked. Unless it is
/// empty, that is all. Then the slot is cleared, and what it held is ended.
pub open spec fn departs<Unsub, InnerSub>(
    inner: InnerSub,
    events: Seq<RefCountEvent<Unsub, InnerSub>>,
) -> bool {
    &&& events.len() >= 2
    &&& events[0] == RefCountEvent::<Unsub, InnerSub>::Left(inner)
    &&& events[1] matches RefCountEvent::Asked(empty) && if !empty {
        events.len() == 2
    } else {
        &&& events.len() >= 3
        &&& events[2] matches RefCountEvent::Taken(taken) && match taken {
            Some(connection) => events.len() == 4 && events[3] == RefCountEvent::<
                Unsub,
                InnerSub,
            >::Ended(connection),
            None => events.len() == 3,
        }
    }
}

// ==================== To which values ====================
/// `observer` is in the list of `subject`, by way of a clone, and `inner` takes
/// it out.
pub open spec fn is_in_the_list<S, P, ConnPtr, Observer, L>(
    subject: Subject<P>,
    observer: Observer,
    inner: L::InnerSub,
) -> bool where P: Clone, L: RefCountArrival<S, P, ConnPtr, Observer> {
    exists|member: Subject<P>|
        cloned(subject.observers, member.observers) && #[trigger] L::joined(
            member,
            observer,
            inner,
        )
}

/// `event`, which is part of the arrival of `observer`, has happened to the
/// values that it is about.
pub open spec fn arrival_true<S, P, ConnPtr, Observer, L>(
    operator: RefCount<S, P, ConnPtr>,
    observer: Observer,
    subject: Subject<P>,
    event: RefCountEvent<L::Unsub, L::InnerSub>,
) -> bool where P: Clone, L: RefCountArrival<S, P, ConnPtr, Observer> {
    match event {
        RefCountEvent::Joined(inner) => is_in_the_list::<S, P, ConnPtr, Observer, L>(
            subject,
            observer,
            inner,
        ),
        RefCountEvent::Counted(count) => L::counted(subject, count),
        RefCountEvent::Looked(vacant) => L::looked(operator.connection, vacant),
        RefCountEvent::Connected(connection) => L::connected(operator.connectable, connection),
        RefCountEvent::Stored(connection) => L::stored(operator.connection, connection),
        _ => false,
    }
}

/// `event`, which is part of the departure of `subscription`, has happened to
/// the values that it is about.
pub open spec fn departure_true<P, ConnPtr, L>(
    subscription: RefCountSubscription<P, L::InnerSub, ConnPtr>,
    event: RefCountEvent<L::Unsub, L::InnerSub>,
) -> bool where L: RefCountDeparture<P, ConnPtr> {
    match event {
        RefCountEvent::Left(inner) => inner == subscription.inner && L::left(inner),
        RefCountEvent::Asked(empty) => L::asked(subscription.subject, empty),
        RefCountEvent::Taken(taken) => L::taken(subscription.connection, taken),
        RefCountEvent::Ended(connection) => L::ended(connection),
        _ => false,
    }
}

/// A subscriber has done what an arrival takes, in that order and nothing else,
/// each time to the right value. Its subscription belongs to the operator, and
/// begins where a run has it begin.
pub open spec fn arrived<S, P, ConnPtr, Observer, L>(
    operator: RefCount<S, P, ConnPtr>,
    observer: Observer,
    subscription: RefCountSubscription<P, L::InnerSub, ConnPtr>,
    before: Seq<RefCountEvent<L::Unsub, L::InnerSub>>,
    after: Seq<RefCountEvent<L::Unsub, L::InnerSub>>,
) -> bool where P: Clone, L: RefCountArrival<S, P, ConnPtr, Observer> {
    let events = entered(before, after);
    &&& after == before + events
    &&& arrives(subscription.inner, events)
    &&& forall|i: int|
        0 <= i < events.len() ==> arrival_true::<S, P, ConnPtr, Observer, L>(
            operator,
            observer,
            subscription.subject,
            #[trigger] events[i],
        )
    &&& path(Slot::<L::Unsub>::Idle, events) == Some(Slot::<L::Unsub>::Subscribed)
    &&& subscription.connection == operator.connection
    &&& cloned(operator.connectable.subject.observers, subscription.subject.observers)
}

/// A subscriber that leaves has done what a departure takes, in that order and
/// nothing else, each time to the right value, and ends where a run has it end.
pub open spec fn departed<P, ConnPtr, L>(
    subscription: RefCountSubscription<P, L::InnerSub, ConnPtr>,
    before: Seq<RefCountEvent<L::Unsub, L::InnerSub>>,
    after: Seq<RefCountEvent<L::Unsub, L::InnerSub>>,
) -> bool where L: RefCountDeparture<P, ConnPtr> {
    let events = entered(before, after);
    &&& after == before + events
    &&& departs(subscription.inner, events)
    &&& forall|i: int|
        0 <= i < events.len() ==> departure_true::<P, ConnPtr, L>(
            subscription,
            #[trigger] events[i],
        )
    &&& path(Slot::<L::Unsub>::Subscribed, events) == Some(Slot::<L::Unsub>::Closed)
}

/// Under any ledger, subscribing is an arrival.
pub proof fn law_subscribe_arrives<S, P, ConnPtr, Observer, L>(
    operator: RefCount<S, P, ConnPtr>,
    observer: Observer,
    subscription: RefCountSubscription<P, L::InnerSub, ConnPtr>,
) where P: Clone, L: RefCountArrival<S, P, ConnPtr, Observer>
    ensures
        forall|ledger: &mut L| #[trigger]
            call_ensures(
                RefCount::<S, P, ConnPtr>::subscribe_under::<Observer, L>,
                (operator, observer, ledger),
                subscription,
            ) ==> arrived::<S, P, ConnPtr, Observer, L>(
                operator,
                observer,
                subscription,
                ledger.log(),
                final(ledger).log(),
            ),
{
    assert forall|ledger: &mut L| #[trigger]
        call_ensures(
            RefCount::<S, P, ConnPtr>::subscribe_under::<Observer, L>,
            (operator, observer, ledger),
            subscription,
        ) implies arrived::<S, P, ConnPtr, Observer, L>(
        operator,
        observer,
        subscription,
        ledger.log(),
        final(ledger).log(),
    ) by {
        let events = choose|events: Seq<RefCountEvent<L::Unsub, L::InnerSub>>|
            {
                &&& #[trigger] subscribed_by::<S, P, ConnPtr, Observer, L>(
                    operator.connectable,
                    subscription.subject,
                    operator.connection,
                    subscription.inner,
                    events,
                )
                &&& final(ledger).log() == ledger.log() + events
            };
        assert(entered(ledger.log(), final(ledger).log()) =~= events);
        let connecting = choose|connecting: Connecting<L::Unsub>| #[trigger]
            went_on::<S, P, ConnPtr, Observer, L>(
                operator.connectable,
                subscription.subject,
                operator.connection,
                connecting,
            ) && events == subscribe_events(subscription.inner, connecting);
        law_subscribe_is_a_path::<L::Unsub, L::InnerSub>(subscription.inner, connecting);
        assert(joined_clone::<S, P, ConnPtr, Observer, L>(
            subscription.subject,
            observer,
            subscription.inner,
        ));
        assert(is_in_the_list::<S, P, ConnPtr, Observer, L>(
            subscription.subject,
            observer,
            subscription.inner,
        ));
    }
}

/// Under any ledger, unsubscribing is a departure.
pub proof fn law_unsubscribe_departs<P, InnerSub, ConnPtr, L>(
    subscription: RefCountSubscription<P, InnerSub, ConnPtr>,
) where L: RefCountDeparture<P, ConnPtr, InnerSub = InnerSub>
    ensures
        forall|ledger: &mut L| #[trigger]
            call_ensures(
                RefCountSubscription::<P, InnerSub, ConnPtr>::unsubscribe_under::<L>,
                (subscription, ledger),
                (),
            ) ==> departed::<P, ConnPtr, L>(subscription, ledger.log(), final(ledger).log()),
{
    assert forall|ledger: &mut L| #[trigger]
        call_ensures(
            RefCountSubscription::<P, InnerSub, ConnPtr>::unsubscribe_under::<L>,
            (subscription, ledger),
            (),
        ) implies departed::<P, ConnPtr, L>(
        subscription,
        ledger.log(),
        final(ledger).log(),
    ) by {
        let events = choose|events: Seq<RefCountEvent<L::Unsub, InnerSub>>|
            {
                &&& #[trigger] left_by::<P, ConnPtr, L>(subscription, events)
                &&& final(ledger).log() == ledger.log() + events
            };
        assert(entered(ledger.log(), final(ledger).log()) =~= events);
        let empty = choose|empty: bool| #[trigger]
            L::asked(subscription.subject, empty) && if empty {
                exists|connection: Option<L::Unsub>| #[trigger]
                    disconnected::<P, ConnPtr, L>(subscription.connection, connection) && events
                        == take_events(subscription.inner, connection)
            } else {
                events == stay_events::<L::Unsub, InnerSub>(subscription.inner)
            };
        if empty {
            let connection = choose|connection: Option<L::Unsub>| #[trigger]
                disconnected::<P, ConnPtr, L>(subscription.connection, connection) && events
                    == take_events(subscription.inner, connection);
            law_take_is_a_path::<L::Unsub, InnerSub>(subscription.inner, connection);
        } else {
            law_stay_is_a_path::<L::Unsub, InnerSub>(subscription.inner);
        }
    }
}

// ==================== On the caller's values ====================
/// `event`, which is part of the arrival of `observer`, is a call that was made
/// on the caller's values.
pub open spec fn arrival_real<S, P, ConnPtr, Observer>(
    operator: RefCount<S, P, ConnPtr>,
    observer: Observer,
    subject: Subject<P>,
    event: RefCountEvent<S::Unsub, P::Unsub>,
) -> bool where
    S: CoreObservable<Subject<P>>,
    P: Clone + Observers<Observer>,
    ConnPtr: SharedCell<Target = Option<S::Unsub>>,
 {
    match event {
        RefCountEvent::Joined(inner) => exists|member: Subject<P>|
            cloned(subject.observers, member.observers) && #[trigger] call_ensures(
                P::insert,
                (&member.observers, observer),
                inner,
            ),
        RefCountEvent::Counted(count) => call_ensures(
            P::subscriber_count,
            (&subject.observers,),
            count,
        ),
        RefCountEvent::Looked(vacant) => call_ensures(
            ConnPtr::update::<IsVacant>,
            (&operator.connection, IsVacant),
            vacant,
        ),
        RefCountEvent::Connected(connection) => call_ensures(
            S::subscribe,
            (operator.connectable.source, operator.connectable.subject),
            connection,
        ),
        RefCountEvent::Stored(connection) => call_ensures(
            ConnPtr::update::<Store<S::Unsub>>,
            (&operator.connection, Store { connection }),
            (),
        ),
        _ => false,
    }
}

/// `event`, which is part of the departure of `subscription`, is a call that was
/// made on the caller's values.
pub open spec fn departure_real<P, InnerSub, ConnPtr>(
    subscription: RefCountSubscription<P, InnerSub, ConnPtr>,
    event: RefCountEvent<ConnPtr::Unsub, InnerSub>,
) -> bool where P: Subscribers, InnerSub: Subscription, ConnPtr: ConnectionCell {
    match event {
        RefCountEvent::Left(inner) => inner == subscription.inner && call_ensures(
            InnerSub::unsubscribe,
            (inner,),
            (),
        ),
        RefCountEvent::Asked(empty) => call_ensures(
            P::is_empty,
            (&subscription.subject.observers,),
            empty,
        ),
        RefCountEvent::Taken(taken) => exists|section: Take| #[trigger]
            call_ensures(ConnPtr::update::<Take>, (&subscription.connection, section), taken),
        RefCountEvent::Ended(connection) => call_ensures(
            <ConnPtr::Unsub as Subscription>::unsubscribe,
            (connection,),
            (),
        ),
        _ => false,
    }
}

/// Subscribing to an operator is an arrival: the calls that it makes on the
/// list, the slot and the source are those, in that order, and no others.
pub proof fn law_subscribe_is_an_arrival<Observer, S, P, ConnPtr>(
    operator: RefCount<S, P, ConnPtr>,
    observer: Observer,
    subscription: RefCountSubscription<P, P::Unsub, ConnPtr>,
) where
    S: CoreObservable<Subject<P>>,
    P: Clone + Observers<Observer>,
    ConnPtr: SharedCell<Target = Option<S::Unsub>>,

    requires
        call_ensures(
            <RefCount<S, P, ConnPtr> as CoreObservable<Observer>>::subscribe,
            (operator, observer),
            subscription,
        ),
    ensures
        subscription.connection == operator.connection,
        cloned(operator.connectable.subject.observers, subscription.subject.observers),
        exists|ledger: &mut RefCountJournal<S::Unsub, P::Unsub>|
            {
                &&& #[trigger] call_ensures(
                    RefCount::<S, P, ConnPtr>::subscribe_under::<
                        Observer,
                        RefCountJournal<S::Unsub, P::Unsub>,
                    >,
                    (operator, observer, ledger),
                    subscription,
                )
                &&& ledger@.len() == 0
                &&& arrives(subscription.inner, final(ledger)@)
                &&& forall|i: int|
                    0 <= i < final(ledger)@.len() ==> arrival_real(
                        operator,
                        observer,
                        subscription.subject,
                        #[trigger] final(ledger)@[i],
                    )
            },
{
    let ledger = choose|ledger: &mut RefCountJournal<S::Unsub, P::Unsub>|
        {
            &&& #[trigger] call_ensures(
                RefCount::<S, P, ConnPtr>::subscribe_under::<
                    Observer,
                    RefCountJournal<S::Unsub, P::Unsub>,
                >,
                (operator, observer, ledger),
                subscription,
            )
            &&& ledger@ == Seq::<RefCountEvent<S::Unsub, P::Unsub>>::empty()
        };
    law_subscribe_arrives::<S, P, ConnPtr, Observer, RefCountJournal<S::Unsub, P::Unsub>>(
        operator,
        observer,
        subscription,
    );
    let events = final(ledger)@;
    assert(entered(ledger@, events) =~= events);
    assert forall|i: int| 0 <= i < events.len() implies arrival_real(
        operator,
        observer,
        subscription.subject,
        #[trigger] events[i],
    ) by {
        assert(arrival_true::<S, P, ConnPtr, Observer, RefCountJournal<S::Unsub, P::Unsub>>(
            operator,
            observer,
            subscription.subject,
            events[i],
        ));
        if let RefCountEvent::Joined(inner) = events[i] {
            let member = choose|member: Subject<P>|
                cloned(subscription.subject.observers, member.observers)
                    && #[trigger] <RefCountJournal<S::Unsub, P::Unsub> as RefCountArrival<
                    S,
                    P,
                    ConnPtr,
                    Observer,
                >>::joined(member, observer, inner);
            assert(call_ensures(P::insert, (&member.observers, observer), inner));
        }
    }
}

/// Ending a subscription is a departure: the calls that it makes on the list and
/// the slot, and on the connection, are those, in that order, and no others.
pub proof fn law_unsubscribe_is_a_departure<P, InnerSub, ConnPtr>(
    subscription: RefCountSubscription<P, InnerSub, ConnPtr>,
) where P: Subscribers, InnerSub: Subscription, ConnPtr: ConnectionCell
    requires
        call_ensures(
            <RefCountSubscription<P, InnerSub, ConnPtr> as Subscription>::unsubscribe,
            (subscription,),
            (),
        ),
    ensures
        exists|ledger: &mut RefCountJournal<ConnPtr::Unsub, InnerSub>|
            {
                &&& #[trigger] call_ensures(
                    RefCountSubscription::<P, InnerSub, ConnPtr>::unsubscribe_under::<
                        RefCountJournal<ConnPtr::Unsub, InnerSub>,
                    >,
                    (subscription, ledger),
                    (),
                )
                &&& ledger@.len() == 0
                &&& departs(subscription.inner, final(ledger)@)
                &&& forall|i: int|
                    0 <= i < final(ledger)@.len() ==> departure_real(
                        subscription,
                        #[trigger] final(ledger)@[i],
                    )
            },
{
    let ledger = choose|ledger: &mut RefCountJournal<ConnPtr::Unsub, InnerSub>|
        {
            &&& #[trigger] call_ensures(
                RefCountSubscription::<P, InnerSub, ConnPtr>::unsubscribe_under::<
                    RefCountJournal<ConnPtr::Unsub, InnerSub>,
                >,
                (subscription, ledger),
                (),
            )
            &&& ledger@ == Seq::<RefCountEvent<ConnPtr::Unsub, InnerSub>>::empty()
        };
    law_unsubscribe_departs::<P, InnerSub, ConnPtr, RefCountJournal<ConnPtr::Unsub, InnerSub>>(
        subscription,
    );
    let events = final(ledger)@;
    assert(entered(ledger@, events) =~= events);
    assert forall|i: int| 0 <= i < events.len() implies departure_real(
        subscription,
        #[trigger] events[i],
    ) by {
        assert(departure_true::<P, ConnPtr, RefCountJournal<ConnPtr::Unsub, InnerSub>>(
            subscription,
            events[i],
        ));
        if let RefCountEvent::Taken(taken) = events[i] {
            let section = choose|section: Take| #[trigger]
                updated(subscription.connection, section, taken);
            assert(call_ensures(
                ConnPtr::update::<Take>,
                (&subscription.connection, section),
                taken,
            ));
        }
    }
}

/// A subscription is closed exactly if what takes its observer out of the list
/// says so.
pub proof fn law_closed_means_left<P, InnerSub, ConnPtr>(
    subscription: RefCountSubscription<P, InnerSub, ConnPtr>,
    closed: bool,
) where P: Subscribers, InnerSub: Subscription, ConnPtr: ConnectionCell
    requires
        call_ensures(
            <RefCountSubscription<P, InnerSub, ConnPtr> as Subscription>::is_closed,
            (&subscription,),
            closed,
        ),
    ensures
        call_ensures(InnerSub::is_closed, (&subscription.inner,), closed),
{
}

/// A clone of an operator shares its source, its list and its slot.
pub proof fn law_clone_shares_everything<S: Clone, P: Clone, ConnPtr: Clone>(
    operator: RefCount<S, P, ConnPtr>,
    copy: RefCount<S, P, ConnPtr>,
)
    requires
        call_ensures(<RefCount<S, P, ConnPtr> as Clone>::clone, (&operator,), copy),
    ensures
        cloned(operator.connectable.source, copy.connectable.source),
        cloned(operator.connectable.subject.observers, copy.connectable.subject.observers),
        cloned(operator.connection, copy.connection),
{
}

// ==================== The slot ====================
/// Looking changes nothing and says whether there is a connection; storing puts
/// that connection in; clearing takes out whatever was in and leaves nothing.
pub proof fn law_sections_on_the_slot<Unsub>(
    before: Option<Unsub>,
    after: Option<Unsub>,
    vacant: bool,
    connection: Unsub,
    section: Take,
    taken: Option<Unsub>,
)
    ensures
        IsVacant.effect(before, after, vacant) ==> after == before && (vacant <==> before is None),
        (Store { connection }).effect(before, after, ()) ==> after == Some(connection),
        section.effect(before, after, taken) ==> after is None && taken == before,
{
}

/// What has been stored is what the next clearing takes out, and looking in
/// between finds the slot in use; after a clearing it is vacant.
pub proof fn law_slot_gives_back_what_was_stored<Unsub>(
    connection: Unsub,
    section: Take,
    vacant: bool,
    taken: Option<Unsub>,
)
    ensures
        forall|
            storing: &mut Option<Unsub>,
            looking: &mut Option<Unsub>,
            clearing: &mut Option<Unsub>,
        |
            {
                &&& #[trigger] call_ensures(
                    <Store<Unsub> as Section<Option<Unsub>>>::run,
                    (Store { connection }, storing),
                    (),
                )
                &&& *looking == *final(storing)
                &&& #[trigger] call_ensures(
                    <IsVacant as Section<Option<Unsub>>>::run,
                    (IsVacant, looking),
                    vacant,
                )
                &&& *clearing == *final(looking)
                &&& #[trigger] call_ensures(
                    <Take as Section<Option<Unsub>>>::run,
                    (section, clearing),
                    taken,
                )
            } ==> !vacant && taken == Some(connection),
        forall|clearing: &mut Option<Unsub>, looking: &mut Option<Unsub>|
            {
                &&& #[trigger] call_ensures(
                    <Take as Section<Option<Unsub>>>::run,
                    (section, clearing),
                    taken,
                )
                &&& *looking == *final(clearing)
                &&& #[trigger] call_ensures(
                    <IsVacant as Section<Option<Unsub>>>::run,
                    (IsVacant, looking),
                    vacant,
                )
            } ==> vacant,
{
}

// ==================== What comes of it ====================
/// What `system` becomes when `slot` goes through `events` with nothing in
/// between, if it can: each of them has to be what comes next, and to be what
/// the shared slot and the subject answer.
pub open spec fn alone<Unsub, InnerSub>(
    system: System<Unsub>,
    slot: int,
    events: Seq<RefCountEvent<Unsub, InnerSub>>,
) -> Option<System<Unsub>>
    decreases events.len(),
{
    if events.len() == 0 {
        Some(system)
    } else {
        let step = Step::Take { slot, event: events[0] };
        if system.enabled(step) {
            alone(system.after(step), slot, events.skip(1))
        } else {
            None
        }
    }
}

proof fn lemma_alone_next<Unsub, InnerSub>(
    system: System<Unsub>,
    slot: int,
    events: Seq<RefCountEvent<Unsub, InnerSub>>,
)
    requires
        events.len() > 0,
        alone(system, slot, events) is Some,
    ensures
        system.enabled((Step::Take { slot, event: events[0] })),
        alone(system, slot, events) == alone(
            system.after((Step::Take { slot, event: events[0] })),
            slot,
            events.skip(1),
        ),
{
}

/// What comes of an arrival with nothing in between, whoever was there before:
/// the observer is in the list. The first one, if nothing is connected, connects
/// the source once, and that connection is kept; for everyone else the source is
/// left alone.
pub proof fn law_arrival_connects_for_the_first<S, P, ConnPtr, Observer, L>(
    operator: RefCount<S, P, ConnPtr>,
    observer: Observer,
    subscription: RefCountSubscription<P, L::InnerSub, ConnPtr>,
    system: System<L::Unsub>,
    slot: int,
    after: System<L::Unsub>,
) where P: Clone, L: RefCountArrival<S, P, ConnPtr, Observer>
    requires
        !system.observers.contains(slot),
    ensures
        forall|ledger: &mut L|
            #![trigger call_ensures(
                RefCount::<S, P, ConnPtr>::subscribe_under::<Observer, L>,
                (operator, observer, ledger),
                subscription,
            )]
            {
                &&& call_ensures(
                    RefCount::<S, P, ConnPtr>::subscribe_under::<Observer, L>,
                    (operator, observer, ledger),
                    subscription,
                )
                &&& alone(system, slot, entered(ledger.log(), final(ledger).log())) == Some(after)
            } ==> {
                &&& after.observers =~= system.observers.insert(slot)
                &&& after.slots =~= system.slots.update(slot, Slot::Subscribed)
                &&& system.subject_empty() && system.connection is None ==> {
                    &&& after.connection is Some
                    &&& after.live == system.live.insert(after.connection->0)
                }
                &&& !(system.subject_empty() && system.connection is None) ==> {
                    &&& after.connection == system.connection
                    &&& after.live == system.live
                }
            },
{
    law_subscribe_arrives::<S, P, ConnPtr, Observer, L>(operator, observer, subscription);
    assert forall|ledger: &mut L|
        #![trigger call_ensures(
            RefCount::<S, P, ConnPtr>::subscribe_under::<Observer, L>,
            (operator, observer, ledger),
            subscription,
        )]
        {
            &&& call_ensures(
                RefCount::<S, P, ConnPtr>::subscribe_under::<Observer, L>,
                (operator, observer, ledger),
                subscription,
            )
            &&& alone(system, slot, entered(ledger.log(), final(ledger).log())) == Some(after)
        } implies {
        &&& after.observers =~= system.observers.insert(slot)
        &&& after.slots =~= system.slots.update(slot, Slot::Subscribed)
        &&& system.subject_empty() && system.connection is None ==> {
            &&& after.connection is Some
            &&& after.live == system.live.insert(after.connection->0)
        }
        &&& !(system.subject_empty() && system.connection is None) ==> {
            &&& after.connection == system.connection
            &&& after.live == system.live
        }
    } by {
        let events = entered(ledger.log(), final(ledger).log());
        lemma_arrival_alone(system, slot, subscription.inner, events, after);
    }
}

proof fn lemma_arrival_alone<Unsub, InnerSub>(
    system: System<Unsub>,
    slot: int,
    inner: InnerSub,
    events: Seq<RefCountEvent<Unsub, InnerSub>>,
    after: System<Unsub>,
)
    requires
        !system.observers.contains(slot),
        arrives(inner, events),
        alone(system, slot, events) == Some(after),
    ensures
        after.observers =~= system.observers.insert(slot),
        after.slots =~= system.slots.update(slot, Slot::Subscribed),
        system.subject_empty() && system.connection is None ==> {
            &&& after.connection is Some
            &&& after.live == system.live.insert(after.connection->0)
        },
        !(system.subject_empty() && system.connection is None) ==> {
            &&& after.connection == system.connection
            &&& after.live == system.live
        },
{
    let members = system.observers.insert(slot);
    lemma_alone_next(system, slot, events);
    let one = system.after((Step::Take { slot, event: events[0] }));
    lemma_alone_next(one, slot, events.skip(1));
    let two = one.after((Step::Take { slot, event: events[1] }));
    if system.subject_empty() {
        assert(members =~= set![slot]);
    } else {
        let other = choose|other: int| #[trigger] system.observers.contains(other);
        assert(members.remove(slot).remove(other).len() == members.len() - 2);
    }
    assert(events.skip(1).skip(1) =~= events.skip(2));
    if events.len() > 2 {
        lemma_alone_next(two, slot, events.skip(2));
        let three = two.after((Step::Take { slot, event: events[2] }));
        assert(events.skip(2).skip(1) =~= events.skip(3));
        if events.len() > 3 {
            lemma_alone_next(three, slot, events.skip(3));
            let four = three.after((Step::Take { slot, event: events[3] }));
            assert(events.skip(3).skip(1) =~= events.skip(4));
            lemma_alone_next(four, slot, events.skip(4));
            assert(events.skip(4).skip(1).len() == 0);
        }
    }
}

/// What comes of a departure with nothing in between: the observer is no longer
/// in the list. While others remain, the connection is left alone; otherwise
/// nothing is kept, and what was kept has been ended.
pub proof fn law_last_departure_disconnects<P, InnerSub, ConnPtr, L>(
    subscription: RefCountSubscription<P, InnerSub, ConnPtr>,
    system: System<L::Unsub>,
    slot: int,
    after: System<L::Unsub>,
) where L: RefCountDeparture<P, ConnPtr, InnerSub = InnerSub>
    ensures
        forall|ledger: &mut L|
            #![trigger call_ensures(
                RefCountSubscription::<P, InnerSub, ConnPtr>::unsubscribe_under::<L>,
                (subscription, ledger),
                (),
            )]
            {
                &&& call_ensures(
                    RefCountSubscription::<P, InnerSub, ConnPtr>::unsubscribe_under::<L>,
                    (subscription, ledger),
                    (),
                )
                &&& alone(system, slot, entered(ledger.log(), final(ledger).log())) == Some(after)
            } ==> {
                let remaining = system.observers.remove(slot);
                &&& after.observers =~= remaining
                &&& after.slots =~= system.slots.update(slot, Slot::Closed)
                &&& remaining != Set::<int>::empty() ==> after.connection == system.connection
                    && after.live == system.live
                &&& remaining =~= Set::<int>::empty() ==> after.connection is None && after.live
                    == match system.connection {
                    Some(connection) => system.live.remove(connection),
                    None => system.live,
                }
            },
{
    law_unsubscribe_departs::<P, InnerSub, ConnPtr, L>(subscription);
    assert forall|ledger: &mut L|
        #![trigger call_ensures(
            RefCountSubscription::<P, InnerSub, ConnPtr>::unsubscribe_under::<L>,
            (subscription, ledger),
            (),
        )]
        {
            &&& call_ensures(
                RefCountSubscription::<P, InnerSub, ConnPtr>::unsubscribe_under::<L>,
                (subscription, ledger),
                (),
            )
            &&& alone(system, slot, entered(ledger.log(), final(ledger).log())) == Some(after)
        } implies {
        let remaining = system.observers.remove(slot);
        &&& after.observers =~= remaining
        &&& after.slots =~= system.slots.update(slot, Slot::Closed)
        &&& remaining != Set::<int>::empty() ==> after.connection == system.connection
            && after.live == system.live
        &&& remaining =~= Set::<int>::empty() ==> after.connection is None && after.live
            == match system.connection {
            Some(connection) => system.live.remove(connection),
            None => system.live,
        }
    } by {
        let events = entered(ledger.log(), final(ledger).log());
        lemma_alone_next(system, slot, events);
        let one = system.after((Step::Take { slot, event: events[0] }));
        lemma_alone_next(one, slot, events.skip(1));
        let two = one.after((Step::Take { slot, event: events[1] }));
        assert(events.skip(1).skip(1) =~= events.skip(2));
        if events.len() > 2 {
            lemma_alone_next(two, slot, events.skip(2));
            let three = two.after((Step::Take { slot, event: events[2] }));
            assert(events.skip(2).skip(1) =~= events.skip(3));
            if events.len() > 3 {
                lemma_alone_next(three, slot, events.skip(3));
                assert(events.skip(3).skip(1).len() == 0);
            }
        }
    }
}

// ==================== Nothing goes past the ledger ====================
/// Under any ledger, each thing that a subscriber can do as it arrives is done to
/// the value that it is about, and is entered, and nothing else is.
pub proof fn law_every_call_of_an_arrival_is_entered<S, P, ConnPtr, Observer, L>() where
    L: RefCountArrival<S, P, ConnPtr, Observer>,

    ensures
        forall|
            ledger: &mut L,
            subject: Subject<P>,
            observer: Observer,
            inner: L::InnerSub,
        | #[trigger]
            call_ensures(L::join, (ledger, subject, observer), inner) ==> {
                &&& L::joined(subject, observer, inner)
                &&& final(ledger).log() == ledger.log().push(RefCountEvent::Joined(inner))
            },
        forall|ledger: &mut L, subject: Subject<P>, count: usize| #[trigger]
            call_ensures(L::count, (ledger, &subject), count) ==> {
                &&& L::counted(subject, count)
                &&& final(ledger).log() == ledger.log().push(RefCountEvent::Counted(count))
            },
        forall|ledger: &mut L, slot: ConnPtr, section: IsVacant, vacant: bool| #[trigger]
            call_ensures(L::look, (ledger, &slot, section), vacant) ==> {
                &&& L::looked(slot, vacant)
                &&& final(ledger).log() == ledger.log().push(RefCountEvent::Looked(vacant))
            },
        forall|
            ledger: &mut L,
            connectable: ConnectableObservable<S, P>,
            connection: L::Unsub,
        | #[trigger]
            call_ensures(L::connect, (ledger, connectable), connection) ==> {
                &&& L::connected(connectable, connection)
                &&& final(ledger).log() == ledger.log().push(RefCountEvent::Connected(connection))
            },
        forall|ledger: &mut L, slot: ConnPtr, section: Store<L::Unsub>| #[trigger]
            call_ensures(L::store, (ledger, &slot, section), ()) ==> {
                &&& L::stored(slot, section.connection)
                &&& final(ledger).log() == ledger.log().push(
                    RefCountEvent::Stored(section.connection),
                )
            },
{
}

/// Under any ledger, each thing that a subscriber can do as it leaves is done to
/// the value that it is about, and is entered, and nothing else is.
pub proof fn law_every_call_of_a_departure_is_entered<P, ConnPtr, L>() where
    L: RefCountDeparture<P, ConnPtr>,

    ensures
        forall|ledger: &mut L, inner: L::InnerSub| #[trigger]
            call_ensures(L::leave, (ledger, inner), ()) ==> {
                &&& L::left(inner)
                &&& final(ledger).log() == ledger.log().push(RefCountEvent::Left(inner))
            },
        forall|ledger: &mut L, subject: Subject<P>, empty: bool| #[trigger]
            call_ensures(L::ask, (ledger, &subject), empty) ==> {
                &&& L::asked(subject, empty)
                &&& final(ledger).log() == ledger.log().push(RefCountEvent::Asked(empty))
            },
        forall|
            ledger: &mut L,
            slot: ConnPtr,
            section: Take,
            connection: Option<L::Unsub>,
        | #[trigger]
            call_ensures(L::take, (ledger, &slot, section), connection) ==> {
                &&& L::taken(slot, connection)
                &&& final(ledger).log() == ledger.log().push(RefCountEvent::Taken(connection))
            },
        forall|ledger: &mut L, connection: L::Unsub| #[trigger]
            call_ensures(L::end, (ledger, connection), ()) ==> {
                &&& L::ended(connection)
                &&& final(ledger).log() == ledger.log().push(RefCountEvent::Ended(connection))
            },
{
}

// ==================== In plain words ====================
/// Subscribing puts the observer into the list and counts the observers. If it
/// is alone and finds the slot vacant, the source has been connected to the
/// subject, and that connection is in the slot.
pub proof fn law_subscribing_alone_connects<Observer, S, P, ConnPtr>(
    operator: RefCount<S, P, ConnPtr>,
    observer: Observer,
    subscription: RefCountSubscription<P, P::Unsub, ConnPtr>,
) where
    S: CoreObservable<Subject<P>>,
    P: Clone + Observers<Observer>,
    ConnPtr: SharedCell<Target = Option<S::Unsub>>,

    requires
        call_ensures(
            <RefCount<S, P, ConnPtr> as CoreObservable<Observer>>::subscribe,
            (operator, observer),
            subscription,
        ),
    ensures
        exists|member: Subject<P>|
            cloned(subscription.subject.observers, member.observers) && #[trigger] call_ensures(
                P::insert,
                (&member.observers, observer),
                subscription.inner,
            ),
        exists|count: usize|
            {
                &&& #[trigger] call_ensures(
                    P::subscriber_count,
                    (&subscription.subject.observers,),
                    count,
                )
                &&& count == 1 ==> exists|vacant: bool|
                    {
                        &&& #[trigger] call_ensures(
                            ConnPtr::update::<IsVacant>,
                            (&operator.connection, IsVacant),
                            vacant,
                        )
                        &&& vacant ==> exists|connection: S::Unsub|
                            {
                                &&& #[trigger] call_ensures(
                                    S::subscribe,
                                    (operator.connectable.source, operator.connectable.subject),
                                    connection,
                                )
                                &&& call_ensures(
                                    ConnPtr::update::<Store<S::Unsub>>,
                                    (&operator.connection, Store { connection }),
                                    (),
                                )
                            }
                    }
            },
{
    law_subscribe_is_an_arrival(operator, observer, subscription);
    let ledger = choose|ledger: &mut RefCountJournal<S::Unsub, P::Unsub>|
        {
            &&& #[trigger] call_ensures(
                RefCount::<S, P, ConnPtr>::subscribe_under::<
                    Observer,
                    RefCountJournal<S::Unsub, P::Unsub>,
                >,
                (operator, observer, ledger),
                subscription,
            )
            &&& ledger@.len() == 0
            &&& arrives(subscription.inner, final(ledger)@)
            &&& forall|i: int|
                0 <= i < final(ledger)@.len() ==> arrival_real(
                    operator,
                    observer,
                    subscription.subject,
                    #[trigger] final(ledger)@[i],
                )
        };
    let events = final(ledger)@;
    let count = events[1]->Counted_0;
    assert(arrival_real(operator, observer, subscription.subject, events[0]));
    assert(arrival_real(operator, observer, subscription.subject, events[1]));
    if count == 1 {
        assert(arrival_real(operator, observer, subscription.subject, events[2]));
        if events[2]->Looked_0 {
            assert(arrival_real(operator, observer, subscription.subject, events[3]));
            assert(arrival_real(operator, observer, subscription.subject, events[4]));
        }
    }
}

/// Ending a subscription takes the observer out of the list, and asks the list
/// whether it is empty. If it is, the slot has been cleared, and the connection
/// that came out has been ended.
pub proof fn law_unsubscribing_last_disconnects<P, InnerSub, ConnPtr>(
    subscription: RefCountSubscription<P, InnerSub, ConnPtr>,
) where P: Subscribers, InnerSub: Subscription, ConnPtr: ConnectionCell
    requires
        call_ensures(
            <RefCountSubscription<P, InnerSub, ConnPtr> as Subscription>::unsubscribe,
            (subscription,),
            (),
        ),
    ensures
        call_ensures(InnerSub::unsubscribe, (subscription.inner,), ()),
        exists|empty: bool|
            {
                &&& #[trigger] call_ensures(
                    P::is_empty,
                    (&subscription.subject.observers,),
                    empty,
                )
                &&& empty ==> exists|section: Take, taken: Option<ConnPtr::Unsub>|
                    {
                        &&& #[trigger] call_ensures(
                            ConnPtr::update::<Take>,
                            (&subscription.connection, section),
                            taken,
                        )
                        &&& taken matches Some(connection) ==> call_ensures(
                            <ConnPtr::Unsub as Subscription>::unsubscribe,
                            (connection,),
                            (),
                        )
                    }
            },
{
    law_unsubscribe_is_a_departure(subscription);
    let ledger = choose|ledger: &mut RefCountJournal<ConnPtr::Unsub, InnerSub>|
        {
            &&& #[trigger] call_ensures(
                RefCountSubscription::<P, InnerSub, ConnPtr>::unsubscribe_under::<
                    RefCountJournal<ConnPtr::Unsub, InnerSub>,
                >,
                (subscription, ledger),
                (),
            )
            &&& ledger@.len() == 0
            &&& departs(subscription.inner, final(ledger)@)
            &&& forall|i: int|
                0 <= i < final(ledger)@.len() ==> departure_real(
                    subscription,
                    #[trigger] final(ledger)@[i],
                )
        };
    let events = final(ledger)@;
    assert(departure_real(subscription, events[0]));
    assert(departure_real(subscription, events[1]));
    if events[1]->Asked_0 {
        assert(departure_real(subscription, events[2]));
        if events[2]->Taken_0 is Some {
            assert(departure_real(subscription, events[3]));
        }
    }
}

} // verus!
