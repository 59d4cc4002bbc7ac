//! What holds of a [`RefCount`](crate::ref_count::RefCount) over whole runs:
//! any number of subscriptions, each going through its steps in order,
//! interleaved in any way. Calls that re-enter the operator are one way of
//! interleaving, threads are another.

use crate::ref_count::{stay_events, subscribe_events, take_events, Connecting};
use crate::ref_count_ledger::RefCountEvent;
use crate::trace::at_most_one;
use vstd::multiset::Multiset;
use vstd::prelude::*;

verus! {

// ==================== One subscription ====================
/// How far a subscription has come: what it is going to do next.
pub enum Slot<Unsub> {
    /// Has not begun.
    Idle,
    /// Has joined, and is about to count the observers.
    Counting,
    /// Is alone, and is about to look for a connection.
    Looking,
    /// Has found none, and is about to connect the source, or is doing so.
    Connecting,
    /// Has connected the source, and is about to keep the connection.
    Storing(Unsub),
    /// Subscribed.
    Subscribed,
    /// Has left, and is about to ask whether anybody remains.
    Asking,
    /// Has found nobody, and is about to take the connection.
    Taking,
    /// Is about to end the connection.
    Ending(Unsub),
    /// Has ended.
    Closed,
}

impl<Unsub> Slot<Unsub> {
    /// Where `event` leads from here, if it is what comes next.
    pub open spec fn advance<InnerSub>(self, event: RefCountEvent<Unsub, InnerSub>) -> Option<
        Self,
    > {
        match (self, event) {
            (Slot::Idle, RefCountEvent::Joined(_)) => Some(Slot::Counting),
            (Slot::Counting, RefCountEvent::Counted(count)) => if count == 1 {
                Some(Slot::Looking)
            } else {
                Some(Slot::Subscribed)
            },
            (Slot::Looking, RefCountEvent::Looked(vacant)) => if vacant {
                Some(Slot::Connecting)
            } else {
                Some(Slot::Subscribed)
            },
            (Slot::Connecting, RefCountEvent::Connected(connection)) => Some(
                Slot::Storing(connection),
            ),
            (Slot::Storing(connection), RefCountEvent::Stored(kept)) => if kept == connection {
                Some(Slot::Subscribed)
            } else {
                None
            },
            (Slot::Subscribed, RefCountEvent::Left(_)) => Some(Slot::Asking),
            (Slot::Asking, RefCountEvent::Asked(empty)) => if empty {
                Some(Slot::Taking)
            } else {
                Some(Slot::Closed)
            },
            (Slot::Taking, RefCountEvent::Taken(taken)) => match taken {
                Some(connection) => Some(Slot::Ending(connection)),
                None => Some(Slot::Closed),
            },
            (Slot::Ending(connection), RefCountEvent::Ended(gone)) => if gone == connection {
                Some(Slot::Closed)
            } else {
                None
            },
            _ => None,
        }
    }

    /// The connection that it has in its hands: made and not kept yet, or taken
    /// and not ended yet.
    pub open spec fn in_hand(self) -> Option<Unsub> {
        match self {
            Slot::Storing(connection) => Some(connection),
            Slot::Ending(connection) => Some(connection),
            _ => None,
        }
    }

    /// Is finding out whether it has to connect the source.
    pub open spec fn inquiring(self) -> bool {
        self is Counting || self is Looking
    }

    /// Is connecting the source.
    pub open spec fn connecting(self) -> bool {
        self is Connecting || self is Storing
    }

    /// Has joined the subject, and not left it yet.
    pub open spec fn attached(self) -> bool {
        self.inquiring() || self.connecting() || self is Subscribed
    }

    /// Is doing nothing: an operation of it has not begun, or is over.
    pub open spec fn settled(self) -> bool {
        self is Idle || self is Subscribed || self is Closed
    }
}

/// Where `events` lead from `slot`, if they are what comes next.
pub open spec fn path<Unsub, InnerSub>(
    slot: Slot<Unsub>,
    events: Seq<RefCountEvent<Unsub, InnerSub>>,
) -> Option<Slot<Unsub>>
    decreases events.len(),
{
    if events.len() == 0 {
        Some(slot)
    } else {
        match path(slot, events.drop_last()) {
            Some(reached) => reached.advance(events.last()),
            None => None,
        }
    }
}

proof fn lemma_path_push<Unsub, InnerSub>(
    slot: Slot<Unsub>,
    events: Seq<RefCountEvent<Unsub, InnerSub>>,
    event: RefCountEvent<Unsub, InnerSub>,
)
    ensures
        path(slot, events.push(event)) == match path(slot, events) {
            Some(reached) => reached.advance(event),
            None => None,
        },
{
    assert(events.push(event).drop_last() =~= events);
}

/// What a subscriber does takes its subscription from nothing to subscribed.
pub proof fn law_subscribe_is_a_path<Unsub, InnerSub>(
    inner: InnerSub,
    connecting: Connecting<Unsub>,
)
    requires
        connecting matches Connecting::Shared(count) ==> count != 1,
    ensures
        path(Slot::<Unsub>::Idle, subscribe_events(inner, connecting)) == Some(
            Slot::<Unsub>::Subscribed,
        ),
{
    let idle = Slot::<Unsub>::Idle;
    let none = Seq::<RefCountEvent<Unsub, InnerSub>>::empty();
    let first = none.push(RefCountEvent::Joined(inner));
    lemma_path_push(idle, none, RefCountEvent::Joined(inner));
    let all = subscribe_events(inner, connecting);
    match connecting {
        Connecting::Shared(count) => {
            lemma_path_push(idle, first, RefCountEvent::Counted(count));
            assert(all =~= first.push(RefCountEvent::Counted(count)));
        },
        Connecting::Occupied => {
            let second = first.push(RefCountEvent::Counted(1));
            lemma_path_push(idle, first, RefCountEvent::Counted(1));
            lemma_path_push(idle, second, RefCountEvent::Looked(false));
            assert(all =~= second.push(RefCountEvent::Looked(false)));
        },
        Connecting::Made(connection) => {
            let second = first.push(RefCountEvent::Counted(1));
            lemma_path_push(idle, first, RefCountEvent::Counted(1));
            let third = second.push(RefCountEvent::Looked(true));
            lemma_path_push(idle, second, RefCountEvent::Looked(true));
            let fourth = third.push(RefCountEvent::Connected(connection));
            lemma_path_push(idle, third, RefCountEvent::Connected(connection));
            lemma_path_push(idle, fourth, RefCountEvent::Stored(connection));
            assert(all =~= fourth.push(RefCountEvent::Stored(connection)));
        },
    }
}

/// What a departure does when others remain takes its subscription to the end.
pub proof fn law_stay_is_a_path<Unsub, InnerSub>(inner: InnerSub)
    ensures
        path(Slot::<Unsub>::Subscribed, stay_events::<Unsub, InnerSub>(inner)) == Some(
            Slot::<Unsub>::Closed,
        ),
{
    let subscribed = Slot::<Unsub>::Subscribed;
    let none = Seq::<RefCountEvent<Unsub, InnerSub>>::empty();
    let first = none.push(RefCountEvent::Left(inner));
    lemma_path_push(subscribed, none, RefCountEvent::Left(inner));
    lemma_path_push(subscribed, first, RefCountEvent::Asked(false));
    assert(stay_events::<Unsub, InnerSub>(inner) =~= first.push(RefCountEvent::Asked(false)));
}

/// What the last departure does takes its subscription to the end.
pub proof fn law_take_is_a_path<Unsub, InnerSub>(inner: InnerSub, connection: Option<Unsub>)
    ensures
        path(Slot::<Unsub>::Subscribed, take_events(inner, connection)) == Some(
            Slot::<Unsub>::Closed,
        ),
{
    let subscribed = Slot::<Unsub>::Subscribed;
    let none = Seq::<RefCountEvent<Unsub, InnerSub>>::empty();
    let first = none.push(RefCountEvent::Left(inner));
    lemma_path_push(subscribed, none, RefCountEvent::Left(inner));
    let second = first.push(RefCountEvent::Asked(true));
    lemma_path_push(subscribed, first, RefCountEvent::Asked(true));
    let third = second.push(RefCountEvent::Taken(connection));
    lemma_path_push(subscribed, second, RefCountEvent::Taken(connection));
    match connection {
        Some(gone) => {
            lemma_path_push(subscribed, third, RefCountEvent::Ended(gone));
            assert(take_events(inner, connection) =~= third.push(RefCountEvent::Ended(gone)));
        },
        None => {
            assert(take_events(inner, connection) =~= third);
        },
    }
}

// ==================== All of them together ====================
/// An operator with everything around it: its subscriptions, the slot that they
/// share, the subject and the source.
#[verifier::reject_recursive_types(Unsub)]
pub struct System<Unsub> {
    /// The subscriptions.
    pub slots: Seq<Slot<Unsub>>,
    /// The connection that is kept.
    pub connection: Option<Unsub>,
    /// The subscriptions whose observers are in the subject's list.
    pub observers: Set<int>,
    /// The connections that have been made and not ended.
    pub live: Multiset<Unsub>,
    /// The connections that have been dropped for another one.
    pub dropped: Multiset<Unsub>,
}

/// One thing that happens.
pub enum Step<Unsub, InnerSub> {
    /// A subscription takes its next step.
    Take { slot: int, event: RefCountEvent<Unsub, InnerSub> },
    /// Observers drop out by themselves, as when the source ends: these remain.
    Drain { rest: Set<int> },
}

impl<Unsub> System<Unsub> {
    /// Nothing has happened yet; there are going to be `size` subscriptions.
    pub open spec fn initial(size: nat) -> Self {
        System {
            slots: Seq::new(size, |i: int| Slot::Idle),
            connection: None,
            observers: Set::empty(),
            live: Multiset::empty(),
            dropped: Multiset::empty(),
        }
    }

    /// The subject's list is empty.
    pub open spec fn subject_empty(self) -> bool {
        self.observers =~= Set::<int>::empty()
    }

    /// `event` reports what the shared slot and the subject answer.
    pub open spec fn answers<InnerSub>(self, event: RefCountEvent<Unsub, InnerSub>) -> bool {
        match event {
            RefCountEvent::Counted(count) => self.observers.finite() && count
                == self.observers.len(),
            RefCountEvent::Looked(vacant) => vacant == (self.connection is None),
            RefCountEvent::Asked(empty) => empty == self.subject_empty(),
            RefCountEvent::Taken(taken) => taken == self.connection,
            _ => true,
        }
    }

    /// `step` can happen.
    pub open spec fn enabled<InnerSub>(self, step: Step<Unsub, InnerSub>) -> bool {
        match step {
            Step::Take { slot, event } => {
                &&& 0 <= slot < self.slots.len()
                &&& self.slots[slot].advance(event) is Some
                &&& self.answers(event)
            },
            Step::Drain { rest } => rest.subset_of(self.observers),
        }
    }

    /// What `event`, which is a step of `slot`, does to everything but `slot`.
    pub open spec fn around<InnerSub>(
        self,
        slot: int,
        event: RefCountEvent<Unsub, InnerSub>,
    ) -> Self {
        match event {
            RefCountEvent::Joined(inner) => System {
                observers: self.observers.insert(slot),
                ..self
            },
            RefCountEvent::Connected(connection) => System {
                live: self.live.insert(connection),
                ..self
            },
            RefCountEvent::Stored(connection) => System {
                connection: Some(connection),
                dropped: self.dropped.add(at_most_one(self.connection)),
                ..self
            },
            RefCountEvent::Left(inner) => System {
                observers: self.observers.remove(slot),
                ..self
            },
            RefCountEvent::Taken(taken) => System { connection: None, ..self },
            RefCountEvent::Ended(connection) => System {
                live: self.live.remove(connection),
                ..self
            },
            RefCountEvent::Counted(_) | RefCountEvent::Looked(_) | RefCountEvent::Asked(_) => self,
        }
    }

    /// Everything after `step`.
    pub open spec fn after<InnerSub>(self, step: Step<Unsub, InnerSub>) -> Self {
        match step {
            Step::Take { slot, event } => System {
                slots: self.slots.update(slot, self.slots[slot].advance(event)->0),
                ..self.around(slot, event)
            },
            Step::Drain { rest } => System { observers: rest, ..self },
        }
    }

    /// No operation is under way.
    pub open spec fn settled(self) -> bool {
        forall|slot: int| 0 <= slot < self.slots.len() ==> (#[trigger] self.slots[slot]).settled()
    }

    /// There is a subscription that has not been ended.
    pub open spec fn has_subscription(self) -> bool {
        exists|slot: int| 0 <= slot < self.slots.len() && #[trigger] self.slots[slot] is Subscribed
    }
}

/// Everything after `steps`.
pub open spec fn reached<Unsub, InnerSub>(size: nat, steps: Seq<Step<Unsub, InnerSub>>) -> System<
    Unsub,
>
    decreases steps.len(),
{
    if steps.len() == 0 {
        System::initial(size)
    } else {
        reached(size, steps.drop_last()).after(steps.last())
    }
}

/// `condition` holds of each of `steps`, in the situation in which it happens.
pub open spec fn throughout<Unsub, InnerSub>(
    size: nat,
    steps: Seq<Step<Unsub, InnerSub>>,
    condition: spec_fn(System<Unsub>, Step<Unsub, InnerSub>) -> bool,
) -> bool
    decreases steps.len(),
{
    steps.len() > 0 ==> {
        &&& throughout(size, steps.drop_last(), condition)
        &&& condition(reached(size, steps.drop_last()), steps.last())
    }
}

/// `steps` can happen, one after the other.
pub open spec fn possible<Unsub, InnerSub>(size: nat, steps: Seq<Step<Unsub, InnerSub>>) -> bool {
    throughout(
        size,
        steps,
        |system: System<Unsub>, step: Step<Unsub, InnerSub>| system.enabled(step),
    )
}

// ==================== No connection is lost but by replacement ====================
/// How often `connection` is in the hands of one of `slots`.
spec fn hand_count<Unsub>(slots: Seq<Slot<Unsub>>, connection: Unsub) -> nat
    decreases slots.len(),
{
    if slots.len() == 0 {
        0
    } else {
        hand_count(slots.drop_last(), connection) + at_most_one(slots.last().in_hand()).count(
            connection,
        )
    }
}

proof fn lemma_hand_count_update<Unsub>(
    slots: Seq<Slot<Unsub>>,
    index: int,
    slot: Slot<Unsub>,
    connection: Unsub,
)
    requires
        0 <= index < slots.len(),
    ensures
        hand_count(slots.update(index, slot), connection) + at_most_one(
            slots[index].in_hand(),
        ).count(connection) == hand_count(slots, connection) + at_most_one(slot.in_hand()).count(
            connection,
        ),
    decreases slots.len(),
{
    let updated = slots.update(index, slot);
    if index == slots.len() - 1 {
        assert(updated.drop_last() =~= slots.drop_last());
    } else {
        assert(updated.drop_last() =~= slots.drop_last().update(index, slot));
        lemma_hand_count_update(slots.drop_last(), index, slot, connection);
    }
}

proof fn lemma_hand_count_zero<Unsub>(slots: Seq<Slot<Unsub>>, connection: Unsub)
    requires
        forall|i: int| 0 <= i < slots.len() ==> (#[trigger] slots[i]).settled(),
    ensures
        hand_count(slots, connection) == 0,
    decreases slots.len(),
{
    broadcast use vstd::multiset::group_multiset_axioms;

    if slots.len() > 0 {
        assert forall|i: int| 0 <= i < slots.drop_last().len() implies (
        #[trigger] slots.drop_last()[i]).settled() by {
            assert(slots.drop_last()[i] == slots[i]);
        }
        lemma_hand_count_zero(slots.drop_last(), connection);
        assert(slots.last().settled());
    }
}

spec fn accounted<Unsub>(system: System<Unsub>) -> bool {
    forall|connection: Unsub| #[trigger]
        system.live.count(connection) == at_most_one(system.connection).count(connection)
            + system.dropped.count(connection) + hand_count(system.slots, connection)
}

proof fn lemma_accounted_step<Unsub, InnerSub>(
    system: System<Unsub>,
    step: Step<Unsub, InnerSub>,
)
    requires
        accounted(system),
        system.enabled(step),
    ensures
        accounted(system.after(step)),
{
    broadcast use vstd::multiset::group_multiset_axioms;

    match step {
        Step::Take { slot, event } => {
            let next = system.slots[slot].advance(event)->0;
            let after = system.after(step);
            assert forall|connection: Unsub| #[trigger]
                after.live.count(connection) == at_most_one(after.connection).count(connection)
                    + after.dropped.count(connection) + hand_count(after.slots, connection) by {
                lemma_hand_count_update(system.slots, slot, next, connection);
                assert(system.live.count(connection) == at_most_one(system.connection).count(
                    connection,
                ) + system.dropped.count(connection) + hand_count(system.slots, connection));
                if let RefCountEvent::Ended(gone) = event {
                    lemma_hand_count_update(system.slots, slot, next, gone);
                    assert(system.live.count(gone) == at_most_one(system.connection).count(gone)
                        + system.dropped.count(gone) + hand_count(system.slots, gone));
                    assert(system.live.count(gone) > 0);
                }
            }
        },
        Step::Drain { rest } => {},
    }
}

proof fn lemma_accounted<Unsub, InnerSub>(size: nat, steps: Seq<Step<Unsub, InnerSub>>)
    requires
        possible(size, steps),
    ensures
        accounted(reached(size, steps)),
    decreases steps.len(),
{
    broadcast use vstd::multiset::group_multiset_axioms;

    if steps.len() == 0 {
        let start = System::<Unsub>::initial(size);
        assert forall|connection: Unsub| #[trigger]
            start.live.count(connection) == at_most_one(start.connection).count(connection)
                + start.dropped.count(connection) + hand_count(start.slots, connection) by {
            lemma_hand_count_zero(start.slots, connection);
        }
    } else {
        lemma_accounted(size, steps.drop_last());
        lemma_accounted_step(reached(size, steps.drop_last()), steps.last());
    }
}

/// However operations interleave, once none is under way the live connections of
/// the source are the one that is kept, and those that were dropped because a
/// second subscriber put its own in their place.
pub proof fn law_connections_are_accounted_for<Unsub, InnerSub>(
    size: nat,
    steps: Seq<Step<Unsub, InnerSub>>,
)
    requires
        possible(size, steps),
        reached(size, steps).settled(),
    ensures
        reached(size, steps).live =~= at_most_one(reached(size, steps).connection).add(
            reached(size, steps).dropped,
        ),
{
    broadcast use vstd::multiset::group_multiset_axioms;

    let system = reached(size, steps);
    lemma_accounted(size, steps);
    assert forall|connection: Unsub| #[trigger]
        system.live.count(connection) == at_most_one(system.connection).add(system.dropped).count(
            connection,
        ) by {
        lemma_hand_count_zero(system.slots, connection);
    }
}

/// `step` does not begin to look for a connection while another subscriber is
/// looking for one or making one.
pub open spec fn one_at_a_time<Unsub, InnerSub>(
    system: System<Unsub>,
    step: Step<Unsub, InnerSub>,
) -> bool {
    match step {
        Step::Take { slot, event } => event is Counted && system.slots[slot].advance(
            event,
        ) == Some(Slot::<Unsub>::Looking) ==> forall|other: int|
            0 <= other < system.slots.len() ==> !(#[trigger] system.slots[other] is Looking)
                && !system.slots[other].connecting(),
        Step::Drain { rest } => true,
    }
}

/// At most one subscriber is looking for a connection or making one, and while
/// one is making one, none is kept.
spec fn exclusive<Unsub>(system: System<Unsub>) -> bool {
    &&& forall|slot: int, other: int|
        0 <= slot < system.slots.len() && 0 <= other < system.slots.len() && slot != other && (
        #[trigger] system.slots[slot] is Looking || system.slots[slot].connecting()) ==> !(
        #[trigger] system.slots[other] is Looking) && !system.slots[other].connecting()
    &&& forall|slot: int|
        0 <= slot < system.slots.len() && (#[trigger] system.slots[slot]).connecting()
            ==> system.connection is None
    &&& system.dropped =~= Multiset::<Unsub>::empty()
}

proof fn lemma_exclusive<Unsub, InnerSub>(size: nat, steps: Seq<Step<Unsub, InnerSub>>)
    requires
        possible(size, steps),
        throughout(
            size,
            steps,
            |system: System<Unsub>, step: Step<Unsub, InnerSub>| one_at_a_time(system, step),
        ),
    ensures
        exclusive(reached(size, steps)),
    decreases steps.len(),
{
    broadcast use vstd::multiset::group_multiset_axioms;

    if steps.len() > 0 {
        let system = reached(size, steps.drop_last());
        let after = reached(size, steps);
        lemma_exclusive(size, steps.drop_last());
        assert(system.enabled(steps.last()));
        assert(one_at_a_time(system, steps.last()));
        if let Step::Take { slot, event } = steps.last() {
            assert(after.slots[slot] == system.slots[slot].advance(event)->0);
            assert(after.slots =~= system.slots.update(slot, after.slots[slot]));
        }
    }
}

/// If no subscriber begins to look for a connection while another is looking for
/// one or making one, then once no operation is under way the source has no live
/// connection but the one that is kept.
pub proof fn law_no_connection_is_lost<Unsub, InnerSub>(
    size: nat,
    steps: Seq<Step<Unsub, InnerSub>>,
)
    requires
        possible(size, steps),
        throughout(
            size,
            steps,
            |system: System<Unsub>, step: Step<Unsub, InnerSub>| one_at_a_time(system, step),
        ),
        reached(size, steps).settled(),
    ensures
        reached(size, steps).live =~= at_most_one(reached(size, steps).connection),
{
    broadcast use vstd::multiset::group_multiset_axioms;

    lemma_exclusive(size, steps);
    law_connections_are_accounted_for(size, steps);
}

// ==================== A connection is kept for a reason ====================
/// Every observer in the list belongs to a subscription that has joined and not
/// left.
spec fn listed<Unsub>(system: System<Unsub>) -> bool {
    forall|slot: int| #[trigger]
        system.observers.contains(slot) ==> 0 <= slot < system.slots.len()
            && system.slots[slot].attached()
}

/// A subscription is there, or is on its way out and has not dealt with the
/// connection yet.
spec fn involved<Unsub>(slot: Slot<Unsub>) -> bool {
    slot.attached() || slot is Asking || slot is Taking
}

/// If there is a connection, somebody is there to take care of it.
spec fn reasoned<Unsub>(system: System<Unsub>) -> bool {
    system.connection is Some ==> exists|slot: int|
        0 <= slot < system.slots.len() && involved(#[trigger] system.slots[slot])
}

proof fn lemma_reasoned<Unsub, InnerSub>(size: nat, steps: Seq<Step<Unsub, InnerSub>>)
    requires
        possible(size, steps),
    ensures
        listed(reached(size, steps)),
        reasoned(reached(size, steps)),
    decreases steps.len(),
{
    if steps.len() > 0 {
        let system = reached(size, steps.drop_last());
        let after = reached(size, steps);
        lemma_reasoned(size, steps.drop_last());
        assert(system.enabled(steps.last()));
        match steps.last() {
            Step::Take { slot, event } => {
                assert(after.slots[slot] == system.slots[slot].advance(event)->0);
                if after.connection is Some && !involved(after.slots[slot]) {
                    if event is Asked {
                        let other = choose|other: int| #[trigger] system.observers.contains(other);
                        assert(system.observers.contains(other));
                        assert(involved(after.slots[other]));
                    } else {
                        let other = choose|other: int|
                            0 <= other < system.slots.len() && involved(
                                #[trigger] system.slots[other],
                            );
                        assert(involved(after.slots[other]));
                    }
                }
            },
            Step::Drain { rest } => {
                assert(after.slots =~= system.slots);
                assert(reasoned(after));
            },
        }
    }
}

/// However operations interleave, once none is under way the source is connected
/// only while there is a subscription that has not been ended: the last
/// subscriber to leave disconnects it.
pub proof fn law_connection_is_kept_for_a_reason<Unsub, InnerSub>(
    size: nat,
    steps: Seq<Step<Unsub, InnerSub>>,
)
    requires
        possible(size, steps),
        reached(size, steps).settled(),
        reached(size, steps).connection is Some,
    ensures
        reached(size, steps).has_subscription(),
{
    let system = reached(size, steps);
    lemma_reasoned(size, steps);
    let slot = choose|slot: int|
        0 <= slot < system.slots.len() && involved(#[trigger] system.slots[slot]);
    assert(system.slots[slot].settled());
    assert(system.slots[slot] is Subscribed);
}

// ==================== Every subscriber is served ====================
/// `step` does not come between two steps that belong together: joining and
/// finding out whether to connect, or finding the subject empty and acting on
/// it.
///
/// Calls that re-enter the operator keep to this as long as they come from the
/// source, from an observer or from ending a connection: nothing of that happens
/// between such steps.
pub open spec fn undivided<Unsub, InnerSub>(
    system: System<Unsub>,
    step: Step<Unsub, InnerSub>,
) -> bool {
    match step {
        Step::Take { slot, event } => forall|other: int|
            0 <= other < system.slots.len() && other != slot ==> !(
            #[trigger] system.slots[other]).inquiring() && !(system.slots[other] is Taking),
        Step::Drain { rest } => true,
    }
}

/// Somebody is connecting the source.
spec fn being_connected<Unsub>(system: System<Unsub>) -> bool {
    exists|slot: int| 0 <= slot < system.slots.len() && (#[trigger] system.slots[slot]).connecting()
}

/// If somebody is there, there is a connection, or somebody is making one or
/// about to find out that it has to.
spec fn served<Unsub>(system: System<Unsub>) -> bool {
    &&& {
        ||| system.connection is Some
        ||| being_connected(system)
        ||| system.subject_empty()
        ||| exists|slot: int|
            0 <= slot < system.slots.len() && (#[trigger] system.slots[slot]).inquiring()
    }
    &&& forall|slot: int|
        0 <= slot < system.slots.len() && #[trigger] system.slots[slot] is Counting ==> {
            ||| system.connection is Some
            ||| being_connected(system)
            ||| system.observers.subset_of(set![slot])
        }
    &&& forall|slot: int|
        0 <= slot < system.slots.len() && #[trigger] system.slots[slot] is Taking
            ==> system.subject_empty()
}

proof fn lemma_served_step<Unsub, InnerSub>(system: System<Unsub>, step: Step<Unsub, InnerSub>)
    requires
        served(system),
        system.enabled(step),
        undivided(system, step),
    ensures
        served(system.after(step)),
{
    let after = system.after(step);
    match step {
        Step::Take { slot, event } => {
            assert(after.slots[slot] == system.slots[slot].advance(event)->0);
            if being_connected(system) && !(event is Stored) {
                let other = choose|other: int|
                    0 <= other < system.slots.len() && (
                    #[trigger] system.slots[other]).connecting();
                assert(after.slots[other].connecting());
            }
            match event {
                RefCountEvent::Joined(inner) => {
                    assert(after.slots[slot].inquiring());
                    if system.subject_empty() {
                        assert(after.observers =~= set![slot]);
                    }
                },
                RefCountEvent::Counted(count) => {
                    if count == 1 {
                        assert(after.slots[slot].inquiring());
                    } else if system.connection is None && !being_connected(system) {
                        assert(system.observers.subset_of(set![slot]));
                        if system.observers.contains(slot) {
                            assert(system.observers =~= set![slot]);
                        } else {
                            assert(system.subject_empty());
                        }
                    }
                },
                RefCountEvent::Looked(vacant) => {
                    if vacant {
                        assert(after.slots[slot].connecting());
                    }
                },
                RefCountEvent::Connected(connection) => {
                    assert(after.slots[slot].connecting());
                },
                RefCountEvent::Taken(taken) => {
                    assert(system.slots[slot] is Taking);
                    assert(after.subject_empty());
                },
                _ => {
                    if system.subject_empty() {
                        assert(after.subject_empty());
                    }
                },
            }
            assert forall|other: int|
                0 <= other < after.slots.len()
                    && #[trigger] after.slots[other] is Counting implies {
                ||| after.connection is Some
                ||| being_connected(after)
                ||| after.observers.subset_of(set![other])
            } by {
                if other != slot {
                    assert(!system.slots[other].inquiring());
                }
            }
            assert forall|other: int|
                0 <= other < after.slots.len()
                    && #[trigger] after.slots[other] is Taking implies after.subject_empty() by {
                if other != slot {
                    assert(!(system.slots[other] is Taking));
                }
            }
        },
        Step::Drain { rest } => {
            assert(after.slots =~= system.slots);
            if system.subject_empty() {
                assert(after.subject_empty());
            }
            assert(being_connected(system) ==> being_connected(after));
        },
    }
}

proof fn lemma_served<Unsub, InnerSub>(size: nat, steps: Seq<Step<Unsub, InnerSub>>)
    requires
        possible(size, steps),
        throughout(
            size,
            steps,
            |system: System<Unsub>, step: Step<Unsub, InnerSub>| undivided(system, step),
        ),
    ensures
        served(reached(size, steps)),
    decreases steps.len(),
{
    if steps.len() > 0 {
        lemma_served(size, steps.drop_last());
        lemma_served_step(reached(size, steps.drop_last()), steps.last());
    }
}

/// Once no operation is under way, a subject with an observer is connected, if
/// operations do not come between the steps of others that belong together.
/// They may re-enter each other anywhere else, as from a source that runs to
/// completion while it is being connected. (Two subscribers that join before
/// either has counted would both leave the connecting to the other.)
pub proof fn law_undivided_subscribers_are_served<Unsub, InnerSub>(
    size: nat,
    steps: Seq<Step<Unsub, InnerSub>>,
)
    requires
        possible(size, steps),
        throughout(
            size,
            steps,
            |system: System<Unsub>, step: Step<Unsub, InnerSub>| undivided(system, step),
        ),
        reached(size, steps).settled(),
        !reached(size, steps).subject_empty(),
    ensures
        reached(size, steps).connection is Some,
{
    lemma_served(size, steps);
    let system = reached(size, steps);
    assert forall|slot: int| 0 <= slot < system.slots.len() implies !(
    #[trigger] system.slots[slot]).inquiring() && !system.slots[slot].connecting() by {
        assert(system.slots[slot].settled());
    }
}

// ==================== One connection for all ====================
/// How often the source is connected in `steps`.
pub open spec fn connects<Unsub, InnerSub>(steps: Seq<Step<Unsub, InnerSub>>) -> nat
    decreases steps.len(),
{
    if steps.len() == 0 {
        0
    } else {
        connects(steps.drop_last()) + match steps.last() {
            Step::Take { slot, event } => if event is Connected {
                1nat
            } else {
                0nat
            },
            Step::Drain { rest } => 0nat,
        }
    }
}

/// `step` takes no observer out of the subject.
pub open spec fn nobody_leaves<Unsub, InnerSub>(step: Step<Unsub, InnerSub>) -> bool {
    match step {
        Step::Take { slot, event } => !(event is Left),
        Step::Drain { rest } => false,
    }
}

/// The observers are those whose subscriptions have begun, and none has left.
spec fn gathered<Unsub>(system: System<Unsub>) -> bool {
    &&& system.observers.finite()
    &&& forall|slot: int|
        0 <= slot < system.slots.len() ==> #[trigger] system.observers.contains(slot) == !(
        system.slots[slot] is Idle)
    &&& forall|slot: int| #[trigger]
        system.observers.contains(slot) ==> 0 <= slot < system.slots.len()
}

/// `first` alone looks for a connection, makes it and keeps it, and the source
/// has been connected `count` times.
spec fn led_by<Unsub>(system: System<Unsub>, first: int, count: nat) -> bool {
    &&& system.observers.contains(first)
    &&& forall|other: int|
        0 <= other < system.slots.len() && other != first ==> (
        #[trigger] system.slots[other] is Idle || system.slots[other] is Counting
            || system.slots[other] is Subscribed)
    &&& match system.slots[first] {
        Slot::Counting | Slot::Looking => system.connection is None && count == 0
            && system.observers =~= set![first],
        Slot::Connecting => system.connection is None && count == 0,
        Slot::Storing(_) => system.connection is None && count == 1,
        Slot::Subscribed => system.connection is Some && count == 1,
        _ => false,
    }
}

/// Nobody has come yet, or there is one who deals with the connection.
spec fn led<Unsub>(system: System<Unsub>, count: nat) -> bool {
    ||| system.subject_empty() && system.connection is None && count == 0
    ||| exists|first: int| #[trigger] led_by(system, first, count)
}

proof fn lemma_led<Unsub, InnerSub>(size: nat, steps: Seq<Step<Unsub, InnerSub>>)
    requires
        possible(size, steps),
        throughout(
            size,
            steps,
            |system: System<Unsub>, step: Step<Unsub, InnerSub>|
                undivided(system, step) && nobody_leaves(step),
        ),
    ensures
        gathered(reached(size, steps)),
        led(reached(size, steps), connects(steps)),
    decreases steps.len(),
{
    if steps.len() > 0 {
        let system = reached(size, steps.drop_last());
        let after = reached(size, steps);
        let count = connects(steps.drop_last());
        lemma_led(size, steps.drop_last());
        assert(system.enabled(steps.last()));
        assert(undivided(system, steps.last()) && nobody_leaves(steps.last()));
        if let Step::Take { slot, event } = steps.last() {
            assert(after.slots[slot] == system.slots[slot].advance(event)->0);
            assert(after.slots =~= system.slots.update(slot, after.slots[slot]));
            if system.subject_empty() {
                assert(!system.observers.contains(slot));
                assert(event is Joined);
                assert(after.observers =~= set![slot]);
                assert forall|other: int| 0 <= other < after.slots.len() && other != slot implies (
                #[trigger] after.slots[other] is Idle) by {
                    assert(!system.observers.contains(other));
                }
                assert(led_by(after, slot, connects(steps)));
            } else {
                let first = choose|first: int| #[trigger] led_by(system, first, count);
                if slot != first {
                    if event is Joined {
                        assert(!system.slots[first].inquiring());
                    } else {
                        assert(event is Counted);
                        assert(system.observers.contains(slot));
                        assert(system.observers.remove(first).remove(slot).len()
                            == system.observers.len() - 2);
                    }
                }
                assert(led_by(after, first, connects(steps)));
            }
        }
    }
}

/// As long as nobody leaves, the source is connected once, however many
/// subscribers come: once no operation is under way it has been connected
/// exactly once, if there is a subscription at all. Operations do not come
/// between the steps of others that belong together; they may re-enter each
/// other anywhere else.
pub proof fn law_one_connection_serves_all<Unsub, InnerSub>(
    size: nat,
    steps: Seq<Step<Unsub, InnerSub>>,
)
    requires
        possible(size, steps),
        throughout(
            size,
            steps,
            |system: System<Unsub>, step: Step<Unsub, InnerSub>|
                undivided(system, step) && nobody_leaves(step),
        ),
    ensures
        connects(steps) <= 1,
        reached(size, steps).settled() && reached(size, steps).has_subscription() ==> connects(
            steps,
        ) == 1,
{
    lemma_led(size, steps);
    let system = reached(size, steps);
    if system.settled() && system.has_subscription() {
        let slot = choose|slot: int|
            0 <= slot < system.slots.len() && #[trigger] system.slots[slot] is Subscribed;
        assert(system.observers.contains(slot));
        let first = choose|first: int| #[trigger] led_by(system, first, connects(steps));
        assert(system.slots[first].settled());
    }
}

} // verus!
