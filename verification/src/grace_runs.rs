//! What holds of a [`RefCountGrace`](crate::grace::RefCountGrace) over whole
//! runs: any number of subscriptions and resets, each going through its steps
//! in order, interleaved in any way. Calls that re-enter the operator are one
//! way of interleaving, threads are another.

use crate::grace::{let_go_events, open_events, reset_events, stay_events, subscribe_events};
use crate::grace_ledger::GraceEvent;
use crate::grace_state::{next_epoch, Arrival, GraceView};
use crate::trace::at_most_one;
use vstd::multiset::Multiset;
use vstd::prelude::*;

verus! {

// ==================== One subscription, or one reset ====================
/// How far a subscription, or a reset, has come: what it is going to do next.
#[allow(inconsistent_fields)]
pub enum Slot<Unsub, TaskHandle> {
    /// Has not begun.
    Idle,
    /// Has arrived, and is about to cancel the timer of the open window.
    Cancelling { epoch: usize, needs_connect: bool, handle: TaskHandle },
    /// Has arrived, and is about to join the subject.
    Joining { epoch: usize, needs_connect: bool },
    /// Has joined, and is about to connect the source, or is doing so.
    Connecting { epoch: usize },
    /// Has connected the source, and is about to offer the connection.
    Parking { epoch: usize, connection: Unsub },
    /// Is about to end a connection that is not wanted.
    EndingRedundant { connection: Unsub },
    /// Subscribed.
    Subscribed,
    /// Has left, and is about to ask whether anybody remains.
    Asking,
    /// Has found nobody, and is about to let the source go or open a window.
    Deciding,
    /// Has let the source go, and is about to cancel its timer.
    CancellingLast { handle: TaskHandle, connection: Option<Unsub> },
    /// Is about to end a connection that has been let go.
    EndingLast { connection: Unsub },
    /// Has opened a window, and is about to schedule its reset, or is doing so.
    Scheduling { epoch: usize },
    /// Has scheduled the reset, and is about to offer its timer.
    Keeping { epoch: usize, handle: TaskHandle },
    /// Is about to cancel a timer that is not wanted.
    CancellingStale { handle: TaskHandle },
    /// Has ended.
    Closed,
}

impl<Unsub, TaskHandle> Slot<Unsub, TaskHandle> {
    /// Where `event` leads from here, if it is what comes next.
    pub open spec fn advance<InnerSub>(
        self,
        event: GraceEvent<Unsub, TaskHandle, InnerSub>,
        grace: nat,
    ) -> Option<Self> {
        match (self, event) {
            (Slot::Idle, GraceEvent::Arrived(arrival)) => {
                let Arrival { to_cancel, epoch, needs_connect } = arrival;
                match to_cancel {
                    Some(handle) => Some(Slot::Cancelling { epoch, needs_connect, handle }),
                    None => Some(Slot::Joining { epoch, needs_connect }),
                }
            },
            (
                Slot::Cancelling { epoch, needs_connect, handle },
                GraceEvent::Cancelled(gone),
            ) => if gone == handle {
                Some(Slot::Joining { epoch, needs_connect })
            } else {
                None
            },
            (Slot::Joining { epoch, needs_connect }, GraceEvent::Joined(_)) => if needs_connect {
                Some(Slot::Connecting { epoch })
            } else {
                Some(Slot::Subscribed)
            },
            (Slot::Connecting { epoch }, GraceEvent::Connected(connection)) => Some(
                Slot::Parking { epoch, connection },
            ),
            (
                Slot::Parking { epoch, connection },
                GraceEvent::Parked { epoch: at, connection: offered, redundant },
            ) => if at == epoch && offered == connection {
                match redundant {
                    Some(back) => Some(Slot::EndingRedundant { connection: back }),
                    None => Some(Slot::Subscribed),
                }
            } else {
                None
            },
            (Slot::EndingRedundant { connection }, GraceEvent::Ended(gone)) => if gone
                == connection {
                Some(Slot::Subscribed)
            } else {
                None
            },
            (Slot::Subscribed, GraceEvent::Left(_)) => Some(Slot::Asking),
            (Slot::Asking, GraceEvent::Asked(empty)) => if empty {
                Some(Slot::Deciding)
            } else {
                Some(Slot::Closed)
            },
            (Slot::Deciding, GraceEvent::LetGo { pending, connection }) => if grace > 0 {
                None
            } else {
                match pending {
                    Some(handle) => Some(Slot::CancellingLast { handle, connection }),
                    None => Some(Self::ending(connection)),
                }
            },
            (
                Slot::CancellingLast { handle, connection },
                GraceEvent::Cancelled(gone),
            ) => if gone == handle {
                Some(Self::ending(connection))
            } else {
                None
            },
            (Slot::EndingLast { connection }, GraceEvent::Ended(gone)) => if gone == connection {
                Some(Slot::Closed)
            } else {
                None
            },
            (Slot::Deciding, GraceEvent::Opened { epoch }) => if grace > 0 {
                Some(Slot::Scheduling { epoch })
            } else {
                None
            },
            (Slot::Scheduling { epoch }, GraceEvent::Scheduled { epoch: at, handle }) => if at
                == epoch {
                Some(Slot::Keeping { epoch, handle })
            } else {
                None
            },
            (
                Slot::Keeping { epoch, handle },
                GraceEvent::Kept { epoch: at, handle: offered, stale },
            ) => if at == epoch && offered == handle {
                match stale {
                    Some(back) => Some(Slot::CancellingStale { handle: back }),
                    None => Some(Slot::Closed),
                }
            } else {
                None
            },
            (Slot::CancellingStale { handle }, GraceEvent::Cancelled(gone)) => if gone == handle {
                Some(Slot::Closed)
            } else {
                None
            },
            (Slot::Idle, GraceEvent::Expired { epoch, connection }) => Some(
                Self::ending(connection),
            ),
            _ => None,
        }
    }

    /// `connection` remains to be ended, if there is one.
    pub open spec fn ending(connection: Option<Unsub>) -> Self {
        match connection {
            Some(inner) => Slot::EndingLast { connection: inner },
            None => Slot::Closed,
        }
    }

    /// The connection that it has in its hands: made and not offered yet, or
    /// handed out and not ended yet.
    pub open spec fn in_hand(self) -> Option<Unsub> {
        match self {
            Slot::Parking { epoch, connection } => Some(connection),
            Slot::EndingRedundant { connection } => Some(connection),
            Slot::EndingLast { connection } => Some(connection),
            Slot::CancellingLast { handle, connection } => connection,
            _ => None,
        }
    }

    /// Has arrived, but not joined the subject yet.
    pub open spec fn arriving(self) -> bool {
        self is Cancelling || self is Joining
    }

    /// Has joined the subject, and not left it yet.
    pub open spec fn attached(self) -> bool {
        self is Connecting || self is Parking || self is EndingRedundant || self is Subscribed
    }

    /// Is going to offer a connection for the arrival at `at`.
    pub open spec fn will_park(self, at: usize) -> bool {
        match self {
            Slot::Cancelling { epoch, needs_connect, handle } => needs_connect && epoch == at,
            Slot::Joining { epoch, needs_connect } => needs_connect && epoch == at,
            Slot::Connecting { epoch } => epoch == at,
            Slot::Parking { epoch, connection } => epoch == at,
            _ => false,
        }
    }

    /// Is doing nothing: an operation of it has not begun, or is over.
    pub open spec fn settled(self) -> bool {
        self is Idle || self is Subscribed || self is Closed
    }
}

/// Where `events` lead from `slot`, if they are what comes next.
pub open spec fn path<Unsub, TaskHandle, InnerSub>(
    slot: Slot<Unsub, TaskHandle>,
    events: Seq<GraceEvent<Unsub, TaskHandle, InnerSub>>,
    grace: nat,
) -> Option<Slot<Unsub, TaskHandle>>
    decreases events.len(),
{
    if events.len() == 0 {
        Some(slot)
    } else {
        match path(slot, events.drop_last(), grace) {
            Some(reached) => reached.advance(events.last(), grace),
            None => None,
        }
    }
}

proof fn lemma_path_push<Unsub, TaskHandle, InnerSub>(
    slot: Slot<Unsub, TaskHandle>,
    events: Seq<GraceEvent<Unsub, TaskHandle, InnerSub>>,
    event: GraceEvent<Unsub, TaskHandle, InnerSub>,
    grace: nat,
)
    ensures
        path(slot, events.push(event), grace) == match path(slot, events, grace) {
            Some(reached) => reached.advance(event, grace),
            None => None,
        },
{
    assert(events.push(event).drop_last() =~= events);
}

/// What a subscriber does takes its subscription from nothing to subscribed.
pub proof fn law_subscribe_is_a_path<Unsub, TaskHandle, InnerSub>(
    arrival: Arrival<TaskHandle>,
    inner: InnerSub,
    made: Option<(Unsub, Option<Unsub>)>,
    grace: nat,
)
    requires
        arrival.needs_connect == (made is Some),
    ensures
        path(Slot::<Unsub, TaskHandle>::Idle, subscribe_events(arrival, inner, made), grace)
            == Some(Slot::<Unsub, TaskHandle>::Subscribed),
{
    let idle = Slot::<Unsub, TaskHandle>::Idle;
    let none = Seq::<GraceEvent<Unsub, TaskHandle, InnerSub>>::empty();
    let first = none.push(GraceEvent::Arrived(arrival));
    lemma_path_push(idle, none, GraceEvent::Arrived(arrival), grace);
    let second = match arrival.to_cancel {
        Some(handle) => first.push(GraceEvent::Cancelled(handle)),
        None => first,
    };
    if let Some(handle) = arrival.to_cancel {
        lemma_path_push(idle, first, GraceEvent::Cancelled(handle), grace);
    }
    let third = second.push(GraceEvent::Joined(inner));
    lemma_path_push(idle, second, GraceEvent::Joined(inner), grace);
    match made {
        None => {
            assert(subscribe_events(arrival, inner, made) =~= third);
        },
        Some((connection, redundant)) => {
            let fourth = third.push(GraceEvent::Connected(connection));
            lemma_path_push(idle, third, GraceEvent::Connected(connection), grace);
            let parked = GraceEvent::Parked { epoch: arrival.epoch, connection, redundant };
            let fifth = fourth.push(parked);
            lemma_path_push(idle, fourth, parked, grace);
            match redundant {
                None => {
                    assert(subscribe_events(arrival, inner, made) =~= fifth);
                },
                Some(back) => {
                    lemma_path_push(idle, fifth, GraceEvent::Ended(back), grace);
                    assert(subscribe_events(arrival, inner, made) =~= fifth.push(
                        GraceEvent::Ended(back),
                    ));
                },
            }
        },
    }
}

/// What a departure does when others remain takes its subscription to the end.
pub proof fn law_stay_is_a_path<Unsub, TaskHandle, InnerSub>(inner: InnerSub, grace: nat)
    ensures
        path(
            Slot::<Unsub, TaskHandle>::Subscribed,
            stay_events::<Unsub, TaskHandle, InnerSub>(inner),
            grace,
        ) == Some(Slot::<Unsub, TaskHandle>::Closed),
{
    let subscribed = Slot::<Unsub, TaskHandle>::Subscribed;
    let none = Seq::<GraceEvent<Unsub, TaskHandle, InnerSub>>::empty();
    let first = none.push(GraceEvent::Left(inner));
    lemma_path_push(subscribed, none, GraceEvent::Left(inner), grace);
    lemma_path_push(subscribed, first, GraceEvent::Asked(false), grace);
    assert(stay_events::<Unsub, TaskHandle, InnerSub>(inner) =~= first.push(
        GraceEvent::Asked(false),
    ));
}

/// What the last departure does takes its subscription to the end, when there
/// is no window to open.
pub proof fn law_let_go_is_a_path<Unsub, TaskHandle, InnerSub>(
    inner: InnerSub,
    pending: Option<TaskHandle>,
    connection: Option<Unsub>,
)
    ensures
        path(
            Slot::<Unsub, TaskHandle>::Subscribed,
            let_go_events(inner, pending, connection),
            0,
        ) == Some(Slot::<Unsub, TaskHandle>::Closed),
{
    let subscribed = Slot::<Unsub, TaskHandle>::Subscribed;
    let none = Seq::<GraceEvent<Unsub, TaskHandle, InnerSub>>::empty();
    let first = none.push(GraceEvent::Left(inner));
    lemma_path_push(subscribed, none, GraceEvent::Left(inner), 0);
    let second = first.push(GraceEvent::Asked(true));
    lemma_path_push(subscribed, first, GraceEvent::Asked(true), 0);
    let third = second.push(GraceEvent::LetGo { pending, connection });
    lemma_path_push(subscribed, second, GraceEvent::LetGo { pending, connection }, 0);
    let fourth = match pending {
        Some(handle) => third.push(GraceEvent::Cancelled(handle)),
        None => third,
    };
    if let Some(handle) = pending {
        lemma_path_push(subscribed, third, GraceEvent::Cancelled(handle), 0);
    }
    match connection {
        Some(gone) => {
            lemma_path_push(subscribed, fourth, GraceEvent::Ended(gone), 0);
            assert(let_go_events(inner, pending, connection) =~= fourth.push(
                GraceEvent::Ended(gone),
            ));
        },
        None => {
            assert(let_go_events(inner, pending, connection) =~= fourth);
        },
    }
}

/// What the last departure does takes its subscription to the end, when it
/// opens a window.
pub proof fn law_open_is_a_path<Unsub, TaskHandle, InnerSub>(
    inner: InnerSub,
    epoch: usize,
    handle: TaskHandle,
    stale: Option<TaskHandle>,
    grace: nat,
)
    requires
        grace > 0,
    ensures
        path(
            Slot::<Unsub, TaskHandle>::Subscribed,
            open_events::<Unsub, TaskHandle, InnerSub>(inner, epoch, handle, stale),
            grace,
        ) == Some(Slot::<Unsub, TaskHandle>::Closed),
{
    let subscribed = Slot::<Unsub, TaskHandle>::Subscribed;
    let none = Seq::<GraceEvent<Unsub, TaskHandle, InnerSub>>::empty();
    let first = none.push(GraceEvent::Left(inner));
    lemma_path_push(subscribed, none, GraceEvent::Left(inner), grace);
    let second = first.push(GraceEvent::Asked(true));
    lemma_path_push(subscribed, first, GraceEvent::Asked(true), grace);
    let third = second.push(GraceEvent::Opened { epoch });
    lemma_path_push(subscribed, second, GraceEvent::Opened { epoch }, grace);
    let fourth = third.push(GraceEvent::Scheduled { epoch, handle });
    lemma_path_push(subscribed, third, GraceEvent::Scheduled { epoch, handle }, grace);
    let fifth = fourth.push(GraceEvent::Kept { epoch, handle, stale });
    lemma_path_push(subscribed, fourth, GraceEvent::Kept { epoch, handle, stale }, grace);
    let all = open_events::<Unsub, TaskHandle, InnerSub>(inner, epoch, handle, stale);
    match stale {
        Some(back) => {
            lemma_path_push(subscribed, fifth, GraceEvent::Cancelled(back), grace);
            assert(all =~= fifth.push(GraceEvent::Cancelled(back)));
        },
        None => {
            assert(all =~= fifth);
        },
    }
}

/// What a reset does takes it from nothing to its end.
pub proof fn law_reset_is_a_path<Unsub, TaskHandle, InnerSub>(
    epoch: usize,
    connection: Option<Unsub>,
    grace: nat,
)
    ensures
        path(
            Slot::<Unsub, TaskHandle>::Idle,
            reset_events::<Unsub, TaskHandle, InnerSub>(epoch, connection),
            grace,
        ) == Some(Slot::<Unsub, TaskHandle>::Closed),
{
    let idle = Slot::<Unsub, TaskHandle>::Idle;
    let none = Seq::<GraceEvent<Unsub, TaskHandle, InnerSub>>::empty();
    let first = none.push(GraceEvent::Expired { epoch, connection });
    lemma_path_push(idle, none, GraceEvent::Expired { epoch, connection }, grace);
    let all = reset_events::<Unsub, TaskHandle, InnerSub>(epoch, connection);
    match connection {
        Some(gone) => {
            lemma_path_push(idle, first, GraceEvent::Ended(gone), grace);
            assert(all =~= first.push(GraceEvent::Ended(gone)));
        },
        None => {
            assert(all =~= first);
        },
    }
}

// ==================== All of them together ====================
/// An operator with everything around it: its subscriptions and resets, its
/// shared state, the subject, the source and the scheduler.
#[verifier::reject_recursive_types(Unsub)]
#[verifier::reject_recursive_types(TaskHandle)]
pub struct System<Unsub, TaskHandle> {
    /// The subscriptions and resets.
    pub slots: Seq<Slot<Unsub, TaskHandle>>,
    /// The shared state.
    pub state: GraceView<Unsub, TaskHandle>,
    /// The subscriptions whose observers are in the subject's list.
    pub observers: Set<int>,
    /// The connections that have been made and not ended.
    pub live: Multiset<Unsub>,
    /// For each timer that the scheduler handed out, the epoch of its reset.
    pub timers: Map<TaskHandle, usize>,
    /// The timers that have been cancelled.
    pub cancelled: Set<TaskHandle>,
    /// The epochs of the resets that have not run: they are in the scheduler's
    /// hands, or about to be given to it.
    pub due: Multiset<usize>,
}

/// One thing that happens.
pub enum Step<Unsub, TaskHandle, InnerSub> {
    /// A subscription or reset takes its next step.
    Take { slot: int, event: GraceEvent<Unsub, TaskHandle, InnerSub> },
    /// Observers drop out by themselves, as when the source ends: these remain.
    Drain { rest: Set<int> },
}

impl<Unsub, TaskHandle> System<Unsub, TaskHandle> {
    /// Nothing has happened yet; there are going to be `size` subscriptions and
    /// resets.
    pub open spec fn initial(size: nat) -> Self {
        System {
            slots: Seq::new(size, |i: int| Slot::Idle),
            state: GraceView::initial(),
            observers: Set::empty(),
            live: Multiset::empty(),
            timers: Map::empty(),
            cancelled: Set::empty(),
            due: Multiset::empty(),
        }
    }

    /// The subject's list is empty.
    pub open spec fn subject_empty(self) -> bool {
        self.observers =~= Set::<int>::empty()
    }

    /// `event` reports what the shared state, the subject and the scheduler
    /// answer.
    ///
    /// A scheduler hands out a new timer each time, and runs a reset at most
    /// once, at any time after it was given it, even if it has been cancelled.
    pub open spec fn answers<InnerSub>(
        self,
        event: GraceEvent<Unsub, TaskHandle, InnerSub>,
    ) -> bool {
        match event {
            GraceEvent::Arrived(arrival) => {
                &&& arrival.to_cancel == self.state.pending
                &&& arrival.epoch == next_epoch(self.state.epoch)
                &&& arrival.needs_connect == (self.state.connection is None)
            },
            GraceEvent::Parked { epoch, connection, redundant } => redundant
                == self.state.redundant(epoch, connection),
            GraceEvent::Asked(empty) => empty == self.subject_empty(),
            GraceEvent::LetGo { pending, connection } => pending == self.state.pending
                && connection == self.state.connection,
            GraceEvent::Opened { epoch } => epoch == next_epoch(self.state.epoch),
            GraceEvent::Scheduled { epoch, handle } => !self.timers.contains_key(handle),
            GraceEvent::Kept { epoch, handle, stale } => stale == self.state.stale(epoch, handle),
            GraceEvent::Expired { epoch, connection } => {
                &&& connection == self.state.expired(epoch, self.subject_empty())
                &&& self.due.count(epoch) > 0
            },
            _ => true,
        }
    }

    /// `step` can happen.
    pub open spec fn enabled<InnerSub>(
        self,
        step: Step<Unsub, TaskHandle, InnerSub>,
        grace: nat,
    ) -> bool {
        match step {
            Step::Take { slot, event } => {
                &&& 0 <= slot < self.slots.len()
                &&& self.slots[slot].advance(event, grace) is Some
                &&& self.answers(event)
            },
            Step::Drain { rest } => rest.subset_of(self.observers),
        }
    }

    /// What `event`, which is a step of `slot`, does to everything but `slot`.
    pub open spec fn around<InnerSub>(
        self,
        slot: int,
        event: GraceEvent<Unsub, TaskHandle, InnerSub>,
    ) -> Self {
        match event {
            GraceEvent::Arrived(arrival) => System { state: self.state.arrive(), ..self },
            GraceEvent::Cancelled(handle) => System {
                cancelled: self.cancelled.insert(handle),
                ..self
            },
            GraceEvent::Joined(inner) => System { observers: self.observers.insert(slot), ..self },
            GraceEvent::Connected(connection) => System {
                live: self.live.insert(connection),
                ..self
            },
            GraceEvent::Parked { epoch, connection, redundant } => System {
                state: self.state.park(epoch, connection),
                ..self
            },
            GraceEvent::Ended(connection) => System { live: self.live.remove(connection), ..self },
            GraceEvent::Left(inner) => System { observers: self.observers.remove(slot), ..self },
            GraceEvent::Asked(empty) => self,
            GraceEvent::LetGo { pending, connection } => System {
                state: self.state.disconnect(),
                ..self
            },
            GraceEvent::Opened { epoch } => System {
                state: self.state.open_window(),
                due: self.due.insert(epoch),
                ..self
            },
            GraceEvent::Scheduled { epoch, handle } => System {
                timers: self.timers.insert(handle, epoch),
                ..self
            },
            GraceEvent::Kept { epoch, handle, stale } => System {
                state: self.state.keep_timer(epoch, handle),
                ..self
            },
            GraceEvent::Expired { epoch, connection } => System {
                state: self.state.expire(epoch, self.subject_empty()),
                due: self.due.remove(epoch),
                ..self
            },
        }
    }

    /// Everything after `step`.
    pub open spec fn after<InnerSub>(
        self,
        step: Step<Unsub, TaskHandle, InnerSub>,
        grace: nat,
    ) -> Self {
        match step {
            Step::Take { slot, event } => System {
                slots: self.slots.update(slot, self.slots[slot].advance(event, grace)->0),
                ..self.around(slot, event)
            },
            Step::Drain { rest } => System { observers: rest, ..self },
        }
    }

    /// No operation is under way.
    pub open spec fn settled(self) -> bool {
        forall|slot: int| 0 <= slot < self.slots.len() ==> (#[trigger] self.slots[slot]).settled()
    }

    /// There is a subscription that has not been ended.
    pub open spec fn has_subscription(self) -> bool {
        exists|slot: int| 0 <= slot < self.slots.len() && #[trigger] self.slots[slot] is Subscribed
    }

    /// A grace window is open: a reset of the current epoch is in the scheduler's
    /// hands and has not run, and such a reset has not been cancelled.
    pub open spec fn window_open(self) -> bool {
        &&& self.due.count(self.state.epoch) > 0
        &&& exists|handle: TaskHandle| #[trigger]
            self.timers.contains_key(handle) && self.timers[handle] == self.state.epoch
                && !self.cancelled.contains(handle)
    }
}

/// Everything after `steps`.
pub open spec fn reached<Unsub, TaskHandle, InnerSub>(
    size: nat,
    steps: Seq<Step<Unsub, TaskHandle, InnerSub>>,
    grace: nat,
) -> System<Unsub, TaskHandle>
    decreases steps.len(),
{
    if steps.len() == 0 {
        System::initial(size)
    } else {
        reached(size, steps.drop_last(), grace).after(steps.last(), grace)
    }
}

/// `condition` holds of each of `steps`, in the situation in which it happens.
pub open spec fn throughout<Unsub, TaskHandle, InnerSub>(
    size: nat,
    steps: Seq<Step<Unsub, TaskHandle, InnerSub>>,
    grace: nat,
    condition: spec_fn(System<Unsub, TaskHandle>, Step<Unsub, TaskHandle, InnerSub>) -> bool,
) -> bool
    decreases steps.len(),
{
    steps.len() > 0 ==> {
        &&& throughout(size, steps.drop_last(), grace, condition)
        &&& condition(reached(size, steps.drop_last(), grace), steps.last())
    }
}

/// `steps` can happen, one after the other.
pub open spec fn possible<Unsub, TaskHandle, InnerSub>(
    size: nat,
    steps: Seq<Step<Unsub, TaskHandle, InnerSub>>,
    grace: nat,
) -> bool {
    throughout(
        size,
        steps,
        grace,
        |system: System<Unsub, TaskHandle>, step: Step<Unsub, TaskHandle, InnerSub>|
            system.enabled(step, grace),
    )
}

// ==================== No connection is lost ====================
/// How often `connection` is in the hands of one of `slots`.
spec fn hand_count<Unsub, TaskHandle>(
    slots: Seq<Slot<Unsub, TaskHandle>>,
    connection: Unsub,
) -> nat
    decreases slots.len(),
{
    if slots.len() == 0 {
        0
    } else {
        hand_count(slots.drop_last(), connection) + at_most_one(slots.last().in_hand()).count(
            connection,
        )
    }
}

proof fn lemma_hand_count_update<Unsub, TaskHandle>(
    slots: Seq<Slot<Unsub, TaskHandle>>,
    index: int,
    slot: Slot<Unsub, TaskHandle>,
    connection: Unsub,
)
    requires
        0 <= index < slots.len(),
    ensures
        hand_count(slots.update(index, slot), connection) + at_most_one(
            slots[index].in_hand(),
        ).count(connection) == hand_count(slots, connection) + at_most_one(slot.in_hand()).count(
            connection,
        ),
    decreases slots.len(),
{
    let updated = slots.update(index, slot);
    if index == slots.len() - 1 {
        assert(updated.drop_last() =~= slots.drop_last());
    } else {
        assert(updated.drop_last() =~= slots.drop_last().update(index, slot));
        lemma_hand_count_update(slots.drop_last(), index, slot, connection);
    }
}

proof fn lemma_hand_count_zero<Unsub, TaskHandle>(
    slots: Seq<Slot<Unsub, TaskHandle>>,
    connection: Unsub,
)
    requires
        forall|i: int| 0 <= i < slots.len() ==> (#[trigger] slots[i]).settled(),
    ensures
        hand_count(slots, connection) == 0,
    decreases slots.len(),
{
    broadcast use vstd::multiset::group_multiset_axioms;

    if slots.len() > 0 {
        assert forall|i: int| 0 <= i < slots.drop_last().len() implies (
        #[trigger] slots.drop_last()[i]).settled() by {
            assert(slots.drop_last()[i] == slots[i]);
        }
        lemma_hand_count_zero(slots.drop_last(), connection);
        assert(slots.last().settled());
    }
}

spec fn accounted<Unsub, TaskHandle>(system: System<Unsub, TaskHandle>) -> bool {
    forall|connection: Unsub| #[trigger]
        system.live.count(connection) == at_most_one(system.state.connection).count(connection)
            + hand_count(system.slots, connection)
}

proof fn lemma_accounted_step<Unsub, TaskHandle, InnerSub>(
    system: System<Unsub, TaskHandle>,
    step: Step<Unsub, TaskHandle, InnerSub>,
    grace: nat,
)
    requires
        accounted(system),
        system.enabled(step, grace),
    ensures
        accounted(system.after(step, grace)),
{
    broadcast use vstd::multiset::group_multiset_axioms;

    match step {
        Step::Take { slot, event } => {
            let next = system.slots[slot].advance(event, grace)->0;
            let after = system.after(step, grace);
            assert forall|connection: Unsub| #[trigger]
                after.live.count(connection) == at_most_one(after.state.connection).count(
                    connection,
                ) + hand_count(after.slots, connection) by {
                lemma_hand_count_update(system.slots, slot, next, connection);
                assert(system.live.count(connection) == at_most_one(
                    system.state.connection,
                ).count(connection) + hand_count(system.slots, connection));
                if let GraceEvent::Ended(gone) = event {
                    lemma_hand_count_update(system.slots, slot, next, gone);
                    assert(system.live.count(gone) == at_most_one(system.state.connection).count(
                        gone,
                    ) + hand_count(system.slots, gone));
                    assert(system.live.count(gone) > 0);
                }
            }
        },
        Step::Drain { rest } => {},
    }
}

proof fn lemma_accounted<Unsub, TaskHandle, InnerSub>(
    size: nat,
    steps: Seq<Step<Unsub, TaskHandle, InnerSub>>,
    grace: nat,
)
    requires
        possible(size, steps, grace),
    ensures
        accounted(reached(size, steps, grace)),
    decreases steps.len(),
{
    broadcast use vstd::multiset::group_multiset_axioms;

    if steps.len() == 0 {
        let start = System::<Unsub, TaskHandle>::initial(size);
        assert forall|connection: Unsub| #[trigger]
            start.live.count(connection) == at_most_one(start.state.connection).count(connection)
                + hand_count(start.slots, connection) by {
            lemma_hand_count_zero(start.slots, connection);
        }
    } else {
        lemma_accounted(size, steps.drop_last(), grace);
        lemma_accounted_step(reached(size, steps.drop_last(), grace), steps.last(), grace);
    }
}

/// However operations interleave, once none is under way the source has no live
/// connection but the one that the state keeps: every other one that was made
/// has been ended, and that one has not.
pub proof fn law_no_connection_is_lost<Unsub, TaskHandle, InnerSub>(
    size: nat,
    steps: Seq<Step<Unsub, TaskHandle, InnerSub>>,
    grace: nat,
)
    requires
        possible(size, steps, grace),
        reached(size, steps, grace).settled(),
    ensures
        reached(size, steps, grace).live =~= at_most_one(
            reached(size, steps, grace).state.connection,
        ),
{
    broadcast use vstd::multiset::group_multiset_axioms;

    let system = reached(size, steps, grace);
    lemma_accounted(size, steps, grace);
    assert forall|connection: Unsub| #[trigger]
        system.live.count(connection) == at_most_one(system.state.connection).count(
            connection,
        ) by {
        lemma_hand_count_zero(system.slots, connection);
    }
}

// ==================== A connection is kept for a reason ====================
/// Every observer in the list belongs to a subscription that has joined and not
/// left.
spec fn listed<Unsub, TaskHandle>(system: System<Unsub, TaskHandle>) -> bool {
    forall|slot: int| #[trigger]
        system.observers.contains(slot) ==> 0 <= slot < system.slots.len()
            && system.slots[slot].attached()
}

/// The timer that `slot` is about to cancel.
spec fn cancelling<Unsub, TaskHandle>(slot: Slot<Unsub, TaskHandle>) -> Option<TaskHandle> {
    match slot {
        Slot::Cancelling { epoch, needs_connect, handle } => Some(handle),
        Slot::CancellingLast { handle, connection } => Some(handle),
        Slot::CancellingStale { handle } => Some(handle),
        _ => None,
    }
}

/// The timer that `slot` is about to cancel or to offer.
spec fn holding<Unsub, TaskHandle>(slot: Slot<Unsub, TaskHandle>) -> Option<TaskHandle> {
    match slot {
        Slot::Keeping { epoch, handle } => Some(handle),
        _ => cancelling(slot),
    }
}

/// A timer that `slot` holds has been handed out by the scheduler, is not kept
/// by the state and has not been cancelled.
spec fn slot_owns<Unsub, TaskHandle>(
    system: System<Unsub, TaskHandle>,
    slot: Slot<Unsub, TaskHandle>,
) -> bool {
    &&& holding(slot) matches Some(handle) ==> {
        &&& system.timers.contains_key(handle)
        &&& !system.cancelled.contains(handle)
        &&& system.state.pending != Some(handle)
    }
    &&& slot matches Slot::Keeping { epoch, handle } ==> system.timers[handle] == epoch
}

/// No timer is in two places.
spec fn owned<Unsub, TaskHandle>(system: System<Unsub, TaskHandle>) -> bool {
    &&& system.state.pending matches Some(handle) ==> system.timers.contains_key(handle)
        && !system.cancelled.contains(handle)
    &&& forall|slot: int|
        0 <= slot < system.slots.len() ==> slot_owns(system, #[trigger] system.slots[slot])
    &&& forall|slot: int, other: int|
        0 <= slot < system.slots.len() && 0 <= other < system.slots.len() && slot != other
            && holding(#[trigger] system.slots[slot]) is Some ==> holding(system.slots[slot])
            != holding(#[trigger] system.slots[other])
    &&& forall|handle: TaskHandle| #[trigger]
        system.cancelled.contains(handle) ==> system.timers.contains_key(handle)
}

/// `handle` is the timer of a reset of the current epoch, has not been
/// cancelled, and nobody is about to cancel it.
spec fn ticking<Unsub, TaskHandle>(system: System<Unsub, TaskHandle>, handle: TaskHandle) -> bool {
    &&& system.timers.contains_key(handle)
    &&& system.timers[handle] == system.state.epoch
    &&& !system.cancelled.contains(handle)
    &&& forall|slot: int|
        0 <= slot < system.slots.len() ==> cancelling(#[trigger] system.slots[slot]) != Some(handle)
}

/// `slot` is about to schedule a reset of the current epoch.
spec fn scheduling<Unsub, TaskHandle>(system: System<Unsub, TaskHandle>, slot: int) -> bool {
    0 <= slot < system.slots.len() && system.slots[slot] == (Slot::<Unsub, TaskHandle>::Scheduling {
        epoch: system.state.epoch,
    })
}

/// A subscription is on its way in, is there, or is on its way out and has not
/// decided about the source yet.
spec fn involved<Unsub, TaskHandle>(slot: Slot<Unsub, TaskHandle>) -> bool {
    slot.arriving() || slot.attached() || slot is Asking || slot is Deciding
}

/// Somebody wants the connection.
spec fn wanted<Unsub, TaskHandle>(system: System<Unsub, TaskHandle>) -> bool {
    exists|slot: int| 0 <= slot < system.slots.len() && involved(#[trigger] system.slots[slot])
}

/// A window is open or opening.
spec fn waiting<Unsub, TaskHandle>(system: System<Unsub, TaskHandle>) -> bool {
    &&& system.due.count(system.state.epoch) > 0
    &&& {
        ||| exists|slot: int| #[trigger] scheduling(system, slot)
        ||| exists|handle: TaskHandle| #[trigger] ticking(system, handle)
    }
}

/// If there is a connection, somebody wants it, or a window is open or opening.
spec fn reasoned<Unsub, TaskHandle>(system: System<Unsub, TaskHandle>) -> bool {
    system.state.connection is Some ==> wanted(system) || waiting(system)
}

proof fn lemma_listed_step<Unsub, TaskHandle, InnerSub>(
    system: System<Unsub, TaskHandle>,
    step: Step<Unsub, TaskHandle, InnerSub>,
    grace: nat,
)
    requires
        listed(system),
        system.enabled(step, grace),
    ensures
        listed(system.after(step, grace)),
{
}

proof fn lemma_owned_step<Unsub, TaskHandle, InnerSub>(
    system: System<Unsub, TaskHandle>,
    step: Step<Unsub, TaskHandle, InnerSub>,
    grace: nat,
)
    requires
        owned(system),
        system.enabled(step, grace),
    ensures
        owned(system.after(step, grace)),
{
    let after = system.after(step, grace);
    match step {
        Step::Take { slot, event } => {
            assert(slot_owns(system, system.slots[slot]));
            assert(after.slots[slot] == system.slots[slot].advance(event, grace)->0);
            assert forall|other: int| 0 <= other < after.slots.len() implies slot_owns(
                after,
                #[trigger] after.slots[other],
            ) by {
                assert(slot_owns(system, system.slots[other]));
                if other != slot {
                    assert(holding(system.slots[slot]) is Some ==> holding(system.slots[slot])
                        != holding(system.slots[other]));
                }
            }
            assert forall|one: int, other: int|
                0 <= one < after.slots.len() && 0 <= other < after.slots.len() && one != other
                    && holding(#[trigger] after.slots[one]) is Some implies holding(
                after.slots[one],
            ) != holding(#[trigger] after.slots[other]) by {
                assert(slot_owns(system, system.slots[one]));
                assert(slot_owns(system, system.slots[other]));
                if holding(system.slots[one]) is Some {
                    assert(holding(system.slots[one]) != holding(system.slots[other]));
                }
                if holding(system.slots[other]) is Some {
                    assert(holding(system.slots[other]) != holding(system.slots[one]));
                }
            }
        },
        Step::Drain { rest } => {
            assert(after.slots =~= system.slots);
            assert forall|other: int| 0 <= other < after.slots.len() implies slot_owns(
                after,
                #[trigger] after.slots[other],
            ) by {
                assert(slot_owns(system, system.slots[other]));
            }
        },
    }
}

/// A step of a subscription that does not want the connection, and that neither
/// moves the epoch nor runs a reset of it, leaves the reason for a connection in
/// place.
proof fn lemma_reason_carries<Unsub, TaskHandle, InnerSub>(
    system: System<Unsub, TaskHandle>,
    slot: int,
    event: GraceEvent<Unsub, TaskHandle, InnerSub>,
    grace: nat,
)
    requires
        owned(system),
        reasoned(system),
        system.state.connection is Some,
        system.enabled((Step::Take { slot, event }), grace),
        !involved(system.slots[slot]),
        system.after((Step::Take { slot, event }), grace).state.epoch == system.state.epoch,
        !(event is Opened),
        event matches GraceEvent::Expired { epoch, connection } ==> epoch != system.state.epoch,
    ensures
        reasoned(system.after((Step::Take { slot, event }), grace)),
{
    broadcast use vstd::multiset::group_multiset_axioms;

    let after = system.after((Step::Take { slot, event }), grace);
    assert(after.slots[slot] == system.slots[slot].advance(event, grace)->0);
    assert(slot_owns(system, system.slots[slot]));
    if wanted(system) {
        let other = choose|other: int|
            0 <= other < system.slots.len() && involved(#[trigger] system.slots[other]);
        assert(involved(after.slots[other]));
        assert(wanted(after));
    } else {
        assert(after.due.count(after.state.epoch) == system.due.count(system.state.epoch));
        if exists|other: int| #[trigger] scheduling(system, other) {
            let other = choose|other: int| #[trigger] scheduling(system, other);
            if other != slot {
                assert(scheduling(after, other));
            } else if let GraceEvent::Scheduled { epoch, handle } = event {
                assert forall|third: int| 0 <= third < after.slots.len() implies cancelling(
                    #[trigger] after.slots[third],
                ) != Some(handle) by {
                    assert(slot_owns(system, system.slots[third]));
                }
                assert(ticking(after, handle));
            }
        } else {
            let handle = choose|handle: TaskHandle| #[trigger] ticking(system, handle);
            assert(cancelling(system.slots[slot]) != Some(handle));
            assert forall|other: int| 0 <= other < after.slots.len() implies cancelling(
                #[trigger] after.slots[other],
            ) != Some(handle) by {
                assert(cancelling(system.slots[other]) != Some(handle));
            }
            assert(ticking(after, handle));
        }
        assert(waiting(after));
    }
}

proof fn lemma_reasoned_step<Unsub, TaskHandle, InnerSub>(
    system: System<Unsub, TaskHandle>,
    step: Step<Unsub, TaskHandle, InnerSub>,
    grace: nat,
)
    requires
        listed(system),
        owned(system),
        reasoned(system),
        system.enabled(step, grace),
    ensures
        reasoned(system.after(step, grace)),
{
    broadcast use vstd::multiset::group_multiset_axioms;

    let after = system.after(step, grace);
    match step {
        Step::Take { slot, event } => {
            assert(after.slots[slot] == system.slots[slot].advance(event, grace)->0);
            if involved(after.slots[slot]) {
                assert(wanted(after));
            } else if after.state.connection is Some {
                match event {
                    GraceEvent::Opened { epoch } => {
                        assert(scheduling(after, slot));
                        assert(waiting(after));
                    },
                    GraceEvent::Asked(empty) => {
                        let other = choose|other: int| #[trigger] system.observers.contains(other);
                        assert(system.observers.contains(other));
                        assert(involved(after.slots[other]));
                        assert(wanted(after));
                    },
                    GraceEvent::Expired { epoch, connection } => {
                        if epoch == system.state.epoch {
                            let other = choose|other: int| #[trigger]
                                system.observers.contains(other);
                            assert(system.observers.contains(other));
                            assert(involved(after.slots[other]));
                            assert(wanted(after));
                        } else {
                            lemma_reason_carries(system, slot, event, grace);
                        }
                    },
                    _ => {
                        lemma_reason_carries(system, slot, event, grace);
                    },
                }
            }
        },
        Step::Drain { rest } => {
            assert(after.slots =~= system.slots);
            assert(wanted(system) ==> wanted(after));
            if waiting(system) {
                if exists|slot: int| #[trigger] scheduling(system, slot) {
                    let slot = choose|slot: int| #[trigger] scheduling(system, slot);
                    assert(scheduling(after, slot));
                } else {
                    let handle = choose|handle: TaskHandle| #[trigger] ticking(system, handle);
                    assert(ticking(after, handle));
                }
                assert(waiting(after));
            }
        },
    }
}

proof fn lemma_reasoned<Unsub, TaskHandle, InnerSub>(
    size: nat,
    steps: Seq<Step<Unsub, TaskHandle, InnerSub>>,
    grace: nat,
)
    requires
        possible(size, steps, grace),
    ensures
        listed(reached(size, steps, grace)),
        owned(reached(size, steps, grace)),
        reasoned(reached(size, steps, grace)),
    decreases steps.len(),
{
    if steps.len() > 0 {
        let system = reached(size, steps.drop_last(), grace);
        lemma_reasoned(size, steps.drop_last(), grace);
        lemma_listed_step(system, steps.last(), grace);
        lemma_owned_step(system, steps.last(), grace);
        lemma_reasoned_step(system, steps.last(), grace);
    }
}

/// However operations interleave, once none is under way a connection is kept
/// only while there is a subscription that has not been ended, or a grace window
/// is open: the last subscriber to leave lets the source go or opens a window.
pub proof fn law_connection_is_kept_for_a_reason<Unsub, TaskHandle, InnerSub>(
    size: nat,
    steps: Seq<Step<Unsub, TaskHandle, InnerSub>>,
    grace: nat,
)
    requires
        possible(size, steps, grace),
        reached(size, steps, grace).settled(),
        reached(size, steps, grace).state.connection is Some,
    ensures
        reached(size, steps, grace).has_subscription() || reached(size, steps, grace).window_open(),
{
    let system = reached(size, steps, grace);
    lemma_reasoned(size, steps, grace);
    if wanted(system) {
        let slot = choose|slot: int|
            0 <= slot < system.slots.len() && involved(#[trigger] system.slots[slot]);
        assert(system.slots[slot].settled());
        assert(system.slots[slot] is Subscribed);
    } else if exists|slot: int| #[trigger] scheduling(system, slot) {
        let slot = choose|slot: int| #[trigger] scheduling(system, slot);
        assert(system.slots[slot].settled());
    } else {
        let handle = choose|handle: TaskHandle| #[trigger] ticking(system, handle);
        assert(system.timers.contains_key(handle));
        assert(system.window_open());
    }
}

/// No scheduler is involved, and if there is a connection, somebody wants it.
spec fn windowless<Unsub, TaskHandle>(system: System<Unsub, TaskHandle>) -> bool {
    &&& system.timers =~= Map::<TaskHandle, usize>::empty()
    &&& system.due =~= Multiset::<usize>::empty()
    &&& forall|slot: int|
        0 <= slot < system.slots.len() ==> !(#[trigger] system.slots[slot] is Scheduling)
    &&& system.state.connection is Some ==> exists|slot: int|
        0 <= slot < system.slots.len() && involved(#[trigger] system.slots[slot])
}

proof fn lemma_windowless_step<Unsub, TaskHandle, InnerSub>(
    system: System<Unsub, TaskHandle>,
    step: Step<Unsub, TaskHandle, InnerSub>,
)
    requires
        listed(system),
        windowless(system),
        system.enabled(step, 0),
    ensures
        windowless(system.after(step, 0)),
{
    broadcast use vstd::multiset::group_multiset_axioms;

    let after = system.after(step, 0);
    match step {
        Step::Take { slot, event } => {
            assert(!(system.slots[slot] is Scheduling));
            assert(after.slots[slot] == system.slots[slot].advance(event, 0)->0);
            if after.state.connection is Some && !involved(after.slots[slot]) {
                if event is Asked {
                    let other = choose|other: int| #[trigger] system.observers.contains(other);
                    assert(system.observers.contains(other));
                    assert(involved(after.slots[other]));
                } else {
                    let other = choose|other: int|
                        0 <= other < system.slots.len() && involved(
                            #[trigger] system.slots[other],
                        );
                    assert(involved(after.slots[other]));
                }
            }
        },
        Step::Drain { rest } => {
            assert(after.slots =~= system.slots);
        },
    }
}

proof fn lemma_windowless<Unsub, TaskHandle, InnerSub>(
    size: nat,
    steps: Seq<Step<Unsub, TaskHandle, InnerSub>>,
)
    requires
        possible(size, steps, 0),
    ensures
        listed(reached(size, steps, 0)),
        windowless(reached(size, steps, 0)),
    decreases steps.len(),
{
    if steps.len() > 0 {
        let system = reached(size, steps.drop_last(), 0);
        lemma_windowless(size, steps.drop_last());
        lemma_listed_step(system, steps.last(), 0);
        lemma_windowless_step(system, steps.last());
    }
}

/// With a grace period of zero no reset is ever scheduled, and once no operation
/// is under way the source is connected only while there is a subscription that
/// has not been ended: the last subscriber to leave disconnects it at once.
pub proof fn law_zero_grace_disconnects_at_once<Unsub, TaskHandle, InnerSub>(
    size: nat,
    steps: Seq<Step<Unsub, TaskHandle, InnerSub>>,
)
    requires
        possible(size, steps, 0),
    ensures
        reached(size, steps, 0).timers =~= Map::<TaskHandle, usize>::empty(),
        reached(size, steps, 0).settled() && !reached(size, steps, 0).has_subscription() ==> reached(
            size,
            steps,
            0,
        ).state.connection is None && reached(size, steps, 0).live =~= Multiset::<Unsub>::empty(),
{
    let system = reached(size, steps, 0);
    lemma_windowless(size, steps);
    if system.settled() && !system.has_subscription() {
        if system.state.connection is Some {
            let slot = choose|slot: int|
                0 <= slot < system.slots.len() && involved(#[trigger] system.slots[slot]);
            assert(system.slots[slot].settled());
            assert(system.slots[slot] is Subscribed);
        }
        law_no_connection_is_lost(size, steps, 0);
    }
}

/// While a grace window is open and nobody else is doing anything, running its
/// reset with nobody subscribed lets the source go, and the reset ends it: when
/// it is done, the source has no live connection.
pub proof fn law_expiry_releases_the_source<Unsub, TaskHandle, InnerSub>(
    size: nat,
    steps: Seq<Step<Unsub, TaskHandle, InnerSub>>,
    slot: int,
    connection: Unsub,
    grace: nat,
)
    requires
        possible(size, steps, grace),
        reached(size, steps, grace).settled(),
        reached(size, steps, grace).window_open(),
        reached(size, steps, grace).subject_empty(),
        reached(size, steps, grace).state.connection == Some(connection),
        0 <= slot < reached(size, steps, grace).slots.len(),
        reached(size, steps, grace).slots[slot] is Idle,
    ensures
        ({
            let epoch = reached(size, steps, grace).state.epoch;
            let expired = Step::<Unsub, TaskHandle, InnerSub>::Take {
                slot,
                event: GraceEvent::Expired { epoch, connection: Some(connection) },
            };
            let ended = Step::<Unsub, TaskHandle, InnerSub>::Take {
                slot,
                event: GraceEvent::Ended(connection),
            };
            let all = steps.push(expired).push(ended);
            &&& possible(size, all, grace)
            &&& reached(size, all, grace).state.connection is None
            &&& reached(size, all, grace).live =~= Multiset::<Unsub>::empty()
        }),
{
    let system = reached(size, steps, grace);
    let epoch = system.state.epoch;
    let expired = Step::<Unsub, TaskHandle, InnerSub>::Take {
        slot,
        event: GraceEvent::Expired { epoch, connection: Some(connection) },
    };
    let ended = Step::<Unsub, TaskHandle, InnerSub>::Take {
        slot,
        event: GraceEvent::Ended(connection),
    };
    let first = steps.push(expired);
    let all = first.push(ended);
    assert(first.drop_last() =~= steps);
    assert(all.drop_last() =~= first);
    assert(system.enabled(expired, grace));
    assert(possible(size, first, grace));
    let between = reached(size, first, grace);
    assert(between == system.after(expired, grace));
    assert(between.enabled(ended, grace));
    assert(possible(size, all, grace));
    let last = reached(size, all, grace);
    assert forall|other: int| 0 <= other < last.slots.len() implies (
    #[trigger] last.slots[other]).settled() by {
        assert(system.slots[other].settled());
    }
    law_no_connection_is_lost(size, all, grace);
}

// ==================== A reset spares later subscribers ====================
/// `step` is the arrival of a subscriber.
pub open spec fn is_arrival<Unsub, TaskHandle, InnerSub>(
    step: Step<Unsub, TaskHandle, InnerSub>,
) -> bool {
    step matches Step::Take { slot, event } && event is Arrived
}

/// How far the epoch has moved on after the first `since` steps: at most once
/// with each step, and at least once if somebody has arrived.
proof fn lemma_epoch_moves_on<Unsub, TaskHandle, InnerSub>(
    size: nat,
    steps: Seq<Step<Unsub, TaskHandle, InnerSub>>,
    since: int,
    grace: nat,
) -> (moves: int)
    requires
        possible(size, steps, grace),
        0 <= since <= steps.len() <= since + usize::MAX,
    ensures
        0 <= moves <= steps.len() - since,
        (exists|i: int| since <= i < steps.len() && is_arrival(#[trigger] steps[i])) ==> moves > 0,
        ({
            let start = reached(size, steps.take(since), grace).state.epoch;
            let now = reached(size, steps, grace).state.epoch;
            now == start + moves || now == start + moves - usize::MAX - 1
        }),
    decreases steps.len(),
{
    if since == steps.len() {
        assert(steps.take(since) =~= steps);
        0
    } else {
        let earlier = steps.drop_last();
        let moves = lemma_epoch_moves_on(size, earlier, since, grace);
        assert(earlier.take(since) =~= steps.take(since));
        let before = reached(size, earlier, grace);
        assert(before.enabled(steps.last(), grace));
        if exists|i: int| since <= i < steps.len() && is_arrival(#[trigger] steps[i]) {
            let i = choose|i: int| since <= i < steps.len() && is_arrival(#[trigger] steps[i]);
            if i < earlier.len() {
                assert(is_arrival(earlier[i]));
            }
        }
        if reached(size, steps, grace).state.epoch == before.state.epoch {
            moves
        } else {
            moves + 1
        }
    }
}

/// A reset never tears down a connection that has gained a subscriber since its
/// window opened, however operations interleave: if somebody has arrived after
/// the first `since` steps, then the reset of a window that was open then
/// changes nothing and hands out nothing, whether the subject is empty or not.
/// This holds until the epoch can have come round to the same value.
pub proof fn law_reset_spares_later_subscribers<Unsub, TaskHandle, InnerSub>(
    size: nat,
    steps: Seq<Step<Unsub, TaskHandle, InnerSub>>,
    since: int,
    subject_empty: bool,
    grace: nat,
)
    requires
        possible(size, steps, grace),
        0 <= since <= steps.len() <= since + usize::MAX,
        exists|i: int| since <= i < steps.len() && is_arrival(#[trigger] steps[i]),
    ensures
        ({
            let epoch = reached(size, steps.take(since), grace).state.epoch;
            let state = reached(size, steps, grace).state;
            state.expire(epoch, subject_empty) == state && state.expired(
                epoch,
                subject_empty,
            ) is None
        }),
{
    let moves = lemma_epoch_moves_on(size, steps, since, grace);
    assert(0 < moves <= usize::MAX);
}

// ==================== Every subscriber is served ====================
/// `step` does not take the connection away from somebody, or drop the
/// connection that somebody is making, on an answer of the subject that is out
/// of date: if it lets the source go, or opens a window while there is no
/// connection, then nobody has joined since the subject was found empty, and
/// nobody is about to.
pub open spec fn timely<Unsub, TaskHandle, InnerSub>(
    system: System<Unsub, TaskHandle>,
    step: Step<Unsub, TaskHandle, InnerSub>,
    grace: nat,
) -> bool {
    match step {
        Step::Take { slot, event } => {
            let after = system.around(slot, event).state;
            !(event is Arrived) && after.epoch != system.state.epoch && after.connection is None
                ==> {
                &&& system.subject_empty()
                &&& forall|other: int|
                    0 <= other < system.slots.len() && other != slot ==> !(
                    #[trigger] system.slots[other]).arriving()
            }
        },
        Step::Drain { rest } => true,
    }
}

/// If somebody is there or about to join, there is a connection, or somebody is
/// going to offer one that will be kept.
spec fn served<Unsub, TaskHandle>(system: System<Unsub, TaskHandle>) -> bool {
    ||| system.state.connection is Some
    ||| exists|slot: int|
        0 <= slot < system.slots.len() && (#[trigger] system.slots[slot]).will_park(
            system.state.epoch,
        )
    ||| system.subject_empty() && forall|slot: int|
        0 <= slot < system.slots.len() ==> !(#[trigger] system.slots[slot]).arriving()
}

proof fn lemma_served_step<Unsub, TaskHandle, InnerSub>(
    system: System<Unsub, TaskHandle>,
    step: Step<Unsub, TaskHandle, InnerSub>,
    grace: nat,
)
    requires
        served(system),
        system.enabled(step, grace),
        timely(system, step, grace),
    ensures
        served(system.after(step, grace)),
{
    let after = system.after(step, grace);
    match step {
        Step::Take { slot, event } => {
            let epoch = system.state.epoch;
            assert(after.slots[slot] == system.slots[slot].advance(event, grace)->0);
            if after.state.connection is Some {
            } else if event is Arrived {
                assert(after.slots[slot].will_park(after.state.epoch));
            } else if after.state.epoch == epoch && exists|other: int|
                0 <= other < system.slots.len() && (#[trigger] system.slots[other]).will_park(
                    epoch,
                ) {
                let other = choose|other: int|
                    0 <= other < system.slots.len() && (#[trigger] system.slots[other]).will_park(
                        epoch,
                    );
                assert(after.slots[other].will_park(epoch));
            } else {
                assert(system.subject_empty());
                assert forall|other: int| 0 <= other < after.slots.len() implies !(
                #[trigger] after.slots[other]).arriving() by {
                    if other != slot {
                        assert(!system.slots[other].arriving());
                    }
                }
                assert(after.subject_empty());
            }
        },
        Step::Drain { rest } => {
            if system.subject_empty() {
                assert(after.subject_empty());
            }
            assert(after.slots =~= system.slots);
            assert(served(after));
        },
    }
}

proof fn lemma_served<Unsub, TaskHandle, InnerSub>(
    size: nat,
    steps: Seq<Step<Unsub, TaskHandle, InnerSub>>,
    grace: nat,
)
    requires
        possible(size, steps, grace),
        throughout(
            size,
            steps,
            grace,
            |system: System<Unsub, TaskHandle>, step: Step<Unsub, TaskHandle, InnerSub>|
                timely(system, step, grace),
        ),
    ensures
        served(reached(size, steps, grace)),
    decreases steps.len(),
{
    if steps.len() > 0 {
        lemma_served(size, steps.drop_last(), grace);
        lemma_served_step(reached(size, steps.drop_last(), grace), steps.last(), grace);
    }
}

/// Once no operation is under way, a subject with an observer is connected, if
/// every step was timely. (A subscriber can be left without a source by a
/// departure that found the subject empty just before that subscriber joined.)
pub proof fn law_subscribers_are_served<Unsub, TaskHandle, InnerSub>(
    size: nat,
    steps: Seq<Step<Unsub, TaskHandle, InnerSub>>,
    grace: nat,
)
    requires
        possible(size, steps, grace),
        throughout(
            size,
            steps,
            grace,
            |system: System<Unsub, TaskHandle>, step: Step<Unsub, TaskHandle, InnerSub>|
                timely(system, step, grace),
        ),
        reached(size, steps, grace).settled(),
        !reached(size, steps, grace).subject_empty(),
    ensures
        reached(size, steps, grace).state.connection is Some,
{
    lemma_served(size, steps, grace);
    let system = reached(size, steps, grace);
    assert forall|slot: int| 0 <= slot < system.slots.len() implies !(
    #[trigger] system.slots[slot]).will_park(system.state.epoch) by {
        assert(system.slots[slot].settled());
    }
}

/// `step` does not come between two steps that belong together: the arrival of a
/// subscriber and its joining, or finding the subject empty and acting on it.
///
/// Calls that re-enter the operator keep to this as long as they come from the
/// source, from an observer, from ending a connection or from scheduling a
/// reset: nothing of that happens between such steps.
pub open spec fn undivided<Unsub, TaskHandle, InnerSub>(
    system: System<Unsub, TaskHandle>,
    step: Step<Unsub, TaskHandle, InnerSub>,
) -> bool {
    match step {
        Step::Take { slot, event } => forall|other: int|
            0 <= other < system.slots.len() && other != slot ==> !(
            #[trigger] system.slots[other]).arriving() && !(system.slots[other] is Deciding),
        Step::Drain { rest } => true,
    }
}

/// Whoever is about to act on an empty subject is right about it.
spec fn decided<Unsub, TaskHandle>(system: System<Unsub, TaskHandle>) -> bool {
    forall|slot: int|
        0 <= slot < system.slots.len() && #[trigger] system.slots[slot] is Deciding
            ==> system.subject_empty()
}

proof fn lemma_undivided_is_timely<Unsub, TaskHandle, InnerSub>(
    size: nat,
    steps: Seq<Step<Unsub, TaskHandle, InnerSub>>,
    grace: nat,
)
    requires
        possible(size, steps, grace),
        throughout(
            size,
            steps,
            grace,
            |system: System<Unsub, TaskHandle>, step: Step<Unsub, TaskHandle, InnerSub>|
                undivided(system, step),
        ),
    ensures
        decided(reached(size, steps, grace)),
        throughout(
            size,
            steps,
            grace,
            |system: System<Unsub, TaskHandle>, step: Step<Unsub, TaskHandle, InnerSub>|
                timely(system, step, grace),
        ),
    decreases steps.len(),
{
    if steps.len() > 0 {
        let system = reached(size, steps.drop_last(), grace);
        let after = reached(size, steps, grace);
        lemma_undivided_is_timely(size, steps.drop_last(), grace);
        assert(system.enabled(steps.last(), grace));
        assert(undivided(system, steps.last()));
        match steps.last() {
            Step::Take { slot, event } => {
                assert(after.slots[slot] == system.slots[slot].advance(event, grace)->0);
                assert forall|other: int|
                    0 <= other < after.slots.len()
                        && #[trigger] after.slots[other] is Deciding implies after.subject_empty() by {
                    if other != slot {
                        assert(!(system.slots[other] is Deciding));
                    }
                }
                assert(system.slots[slot] is Deciding ==> system.subject_empty());
            },
            Step::Drain { rest } => {
                assert forall|other: int|
                    0 <= other < after.slots.len()
                        && #[trigger] after.slots[other] is Deciding implies after.subject_empty() by {
                    assert(system.slots[other] is Deciding);
                }
            },
        }
        assert(timely(system, steps.last(), grace));
    }
}

/// Once no operation is under way, a subject with an observer is connected, if
/// operations do not come between the steps of others that belong together.
/// They may re-enter each other anywhere else, as from a source that runs to
/// completion while it is being connected.
pub proof fn law_undivided_subscribers_are_served<Unsub, TaskHandle, InnerSub>(
    size: nat,
    steps: Seq<Step<Unsub, TaskHandle, InnerSub>>,
    grace: nat,
)
    requires
        possible(size, steps, grace),
        throughout(
            size,
            steps,
            grace,
            |system: System<Unsub, TaskHandle>, step: Step<Unsub, TaskHandle, InnerSub>|
                undivided(system, step),
        ),
        reached(size, steps, grace).settled(),
        !reached(size, steps, grace).subject_empty(),
    ensures
        reached(size, steps, grace).state.connection is Some,
{
    lemma_undivided_is_timely(size, steps, grace);
    law_subscribers_are_served(size, steps, grace);
}

} // verus!
