//! A grace period of zero behaves exactly like no grace period.
//!
//! Both operators are put through the same acts, one act after the other. After
//! each act they have the same observers, the same connection, and the same live
//! connections of the source, and every observer has received the same items.

use crate::grace_ledger::GraceEvent;
use crate::grace_runs;
use crate::grace_state::{next_epoch, Arrival};
use crate::ref_count_ledger::RefCountEvent;
use crate::ref_count_runs;
use vstd::prelude::*;
use vstd::set_lib::{lemma_int_range, lemma_len_subset, set_int_range};

verus! {

/// Something that is done with an operator, from beginning to end.
pub enum Act<Unsub, Item> {
    /// A subscriber arrives. If that connects the source, `connection` is what
    /// comes of it, `items` are what the source passes on meanwhile, and `rest`
    /// are the observers that it leaves in the list: it may run to completion.
    Subscribe { slot: int, connection: Unsub, items: Seq<Item>, rest: Set<int> },
    /// A subscriber leaves.
    Unsubscribe { slot: int },
    /// The source has an item for whoever is connected to it.
    Emit { item: Item },
    /// Observers drop out by themselves, as when the source ends: these remain.
    Drain { rest: Set<int> },
}

type GraceStep<Unsub, TaskHandle> = grace_runs::Step<Unsub, TaskHandle, ()>;

type RefCountStep<Unsub> = ref_count_runs::Step<Unsub, ()>;

/// `act` can be done. Observers can be added as long as they can be counted.
pub open spec fn can_act<Unsub, Item>(system: ref_count_runs::System<Unsub>, act: Act<Unsub, Item>) -> bool {
    match act {
        Act::Subscribe { slot, connection, items, rest } => {
            &&& 0 <= slot < system.slots.len()
            &&& system.slots[slot] is Idle
            &&& rest.subset_of(system.observers.insert(slot))
            &&& system.observers.insert(slot).len() <= usize::MAX
        },
        Act::Unsubscribe { slot } => 0 <= slot < system.slots.len()
            && system.slots[slot] is Subscribed,
        Act::Emit { item } => true,
        Act::Drain { rest } => rest.subset_of(system.observers),
    }
}

/// The steps of the operator with a grace period of zero that make up `act`.
pub open spec fn grace_steps<Unsub, TaskHandle, Item>(
    system: grace_runs::System<Unsub, TaskHandle>,
    act: Act<Unsub, Item>,
) -> Seq<GraceStep<Unsub, TaskHandle>> {
    match act {
        Act::Subscribe { slot, connection, items, rest } => {
            let epoch = next_epoch(system.state.epoch);
            let needs_connect = system.state.connection is None;
            let arrival = Arrival { to_cancel: system.state.pending, epoch, needs_connect };
            let joined = seq![
                grace_runs::Step::Take { slot, event: GraceEvent::Arrived(arrival) },
                grace_runs::Step::Take { slot, event: GraceEvent::Joined(()) },
            ];
            if needs_connect {
                joined.push(
                    grace_runs::Step::Take { slot, event: GraceEvent::Connected(connection) },
                ).push(grace_runs::Step::Drain { rest }).push(
                    grace_runs::Step::Take {
                        slot,
                        event: GraceEvent::Parked { epoch, connection, redundant: None },
                    },
                )
            } else {
                joined
            }
        },
        Act::Unsubscribe { slot } => {
            let empty = system.observers.remove(slot) =~= Set::<int>::empty();
            let left = seq![
                grace_runs::Step::Take { slot, event: GraceEvent::Left(()) },
                grace_runs::Step::Take { slot, event: GraceEvent::Asked(empty) },
            ];
            if !empty {
                left
            } else {
                let connection = system.state.connection;
                let pending = system.state.pending;
                let gone = left.push(
                    grace_runs::Step::Take {
                        slot,
                        event: GraceEvent::LetGo { pending, connection },
                    },
                );
                match connection {
                    Some(inner) => gone.push(
                        grace_runs::Step::Take { slot, event: GraceEvent::Ended(inner) },
                    ),
                    None => gone,
                }
            }
        },
        Act::Emit { item } => seq![],
        Act::Drain { rest } => seq![grace_runs::Step::Drain { rest }],
    }
}

/// The steps of the operator without a grace period that make up `act`.
pub open spec fn ref_count_steps<Unsub, Item>(
    system: ref_count_runs::System<Unsub>,
    act: Act<Unsub, Item>,
) -> Seq<RefCountStep<Unsub>> {
    match act {
        Act::Subscribe { slot, connection, items, rest } => {
            let count = system.observers.insert(slot).len() as usize;
            let counted = seq![
                ref_count_runs::Step::Take { slot, event: RefCountEvent::Joined(()) },
                ref_count_runs::Step::Take { slot, event: RefCountEvent::Counted(count) },
            ];
            if count != 1 {
                counted
            } else {
                let vacant = system.connection is None;
                let looked = counted.push(
                    ref_count_runs::Step::Take { slot, event: RefCountEvent::Looked(vacant) },
                );
                if vacant {
                    looked.push(
                        ref_count_runs::Step::Take {
                            slot,
                            event: RefCountEvent::Connected(connection),
                        },
                    ).push(ref_count_runs::Step::Drain { rest }).push(
                        ref_count_runs::Step::Take {
                            slot,
                            event: RefCountEvent::Stored(connection),
                        },
                    )
                } else {
                    looked
                }
            }
        },
        Act::Unsubscribe { slot } => {
            let empty = system.observers.remove(slot) =~= Set::<int>::empty();
            let left = seq![
                ref_count_runs::Step::Take { slot, event: RefCountEvent::Left(()) },
                ref_count_runs::Step::Take { slot, event: RefCountEvent::Asked(empty) },
            ];
            if !empty {
                left
            } else {
                let taken = left.push(
                    ref_count_runs::Step::Take {
                        slot,
                        event: RefCountEvent::Taken(system.connection),
                    },
                );
                match system.connection {
                    Some(inner) => taken.push(
                        ref_count_runs::Step::Take { slot, event: RefCountEvent::Ended(inner) },
                    ),
                    None => taken,
                }
            }
        },
        Act::Emit { item } => seq![],
        Act::Drain { rest } => seq![ref_count_runs::Step::Drain { rest }],
    }
}

/// All steps of the operator with a grace period of zero in the course of
/// `acts`.
pub open spec fn all_grace_steps<Unsub, TaskHandle, Item>(size: nat, acts: Seq<Act<Unsub, Item>>) -> Seq<
    GraceStep<Unsub, TaskHandle>,
>
    decreases acts.len(),
{
    if acts.len() == 0 {
        seq![]
    } else {
        let before = all_grace_steps(size, acts.drop_last());
        before + grace_steps(grace_runs::reached(size, before, 0), acts.last())
    }
}

/// All steps of the operator without a grace period in the course of `acts`.
pub open spec fn all_ref_count_steps<Unsub, Item>(size: nat, acts: Seq<Act<Unsub, Item>>) -> Seq<
    RefCountStep<Unsub>,
>
    decreases acts.len(),
{
    if acts.len() == 0 {
        seq![]
    } else {
        let before = all_ref_count_steps(size, acts.drop_last());
        before + ref_count_steps(ref_count_runs::reached(size, before), acts.last())
    }
}

/// `acts` can be done, one after the other.
pub open spec fn can_act_all<Unsub, Item>(size: nat, acts: Seq<Act<Unsub, Item>>) -> bool
    decreases acts.len(),
{
    acts.len() > 0 ==> {
        &&& can_act_all(size, acts.drop_last())
        &&& can_act(
            ref_count_runs::reached(size, all_ref_count_steps(size, acts.drop_last())),
            acts.last(),
        )
    }
}

/// What `act` brings the observer of `slot`, if these are the `observers`, the
/// source is `connected` or not, and `act` `connects` it or not.
pub open spec fn delivered<Unsub, Item>(
    observers: Set<int>,
    connected: bool,
    connects: bool,
    act: Act<Unsub, Item>,
    slot: int,
) -> Seq<Item> {
    match act {
        Act::Subscribe { slot: new, connection, items, rest } => if connects && observers.insert(
            new,
        ).contains(slot) {
            items
        } else {
            seq![]
        },
        Act::Emit { item } => if connected && observers.contains(slot) {
            seq![item]
        } else {
            seq![]
        },
        Act::Unsubscribe { .. } | Act::Drain { .. } => seq![],
    }
}

/// `step` connects the source.
pub open spec fn is_grace_connect<Unsub, TaskHandle>(step: GraceStep<Unsub, TaskHandle>) -> bool {
    step matches grace_runs::Step::Take { slot, event } && event is Connected
}

/// `step` connects the source.
pub open spec fn is_ref_count_connect<Unsub>(step: RefCountStep<Unsub>) -> bool {
    step matches ref_count_runs::Step::Take { slot, event } && event is Connected
}

/// What the observer of `slot` receives in the course of `acts` from the
/// operator with a grace period of zero.
pub open spec fn grace_received<Unsub, TaskHandle, Item>(
    size: nat,
    acts: Seq<Act<Unsub, Item>>,
    slot: int,
) -> Seq<Item>
    decreases acts.len(),
{
    if acts.len() == 0 {
        seq![]
    } else {
        let before = all_grace_steps::<Unsub, TaskHandle, Item>(size, acts.drop_last());
        let system = grace_runs::reached(size, before, 0);
        let steps = grace_steps(system, acts.last());
        let connects = exists|i: int| 0 <= i < steps.len() && is_grace_connect(#[trigger] steps[i]);
        grace_received::<Unsub, TaskHandle, Item>(size, acts.drop_last(), slot) + delivered(
            system.observers,
            system.live.len() > 0,
            connects,
            acts.last(),
            slot,
        )
    }
}

/// What the observer of `slot` receives in the course of `acts` from the
/// operator without a grace period.
pub open spec fn ref_count_received<Unsub, Item>(
    size: nat,
    acts: Seq<Act<Unsub, Item>>,
    slot: int,
) -> Seq<Item>
    decreases acts.len(),
{
    if acts.len() == 0 {
        seq![]
    } else {
        let before = all_ref_count_steps(size, acts.drop_last());
        let system = ref_count_runs::reached(size, before);
        let steps = ref_count_steps(system, acts.last());
        let connects = exists|i: int|
            0 <= i < steps.len() && is_ref_count_connect(#[trigger] steps[i]);
        ref_count_received(size, acts.drop_last(), slot) + delivered(
            system.observers,
            system.live.len() > 0,
            connects,
            acts.last(),
            slot,
        )
    }
}

/// The two subscriptions are equally far, and neither is doing anything.
pub open spec fn same_slot<Unsub, TaskHandle>(
    grace: grace_runs::Slot<Unsub, TaskHandle>,
    plain: ref_count_runs::Slot<Unsub>,
) -> bool {
    ||| grace is Idle && plain is Idle
    ||| grace is Subscribed && plain is Subscribed
    ||| grace is Closed && plain is Closed
}

/// No difference can be seen between the two operators.
pub open spec fn alike<Unsub, TaskHandle>(
    grace: grace_runs::System<Unsub, TaskHandle>,
    plain: ref_count_runs::System<Unsub>,
) -> bool {
    &&& grace.slots.len() == plain.slots.len()
    &&& forall|slot: int|
        0 <= slot < grace.slots.len() ==> same_slot(
            #[trigger] grace.slots[slot],
            #[trigger] plain.slots[slot],
        )
    &&& grace.observers == plain.observers
    &&& grace.state.connection == plain.connection
    &&& grace.live == plain.live
}

/// What else holds of both between two acts.
spec fn in_order<Unsub, TaskHandle>(
    grace: grace_runs::System<Unsub, TaskHandle>,
    plain: ref_count_runs::System<Unsub>,
    size: nat,
) -> bool {
    &&& plain.slots.len() == size
    &&& grace.state.pending is None
    &&& forall|slot: int| #[trigger]
        plain.observers.contains(slot) ==> 0 <= slot < size && plain.slots[slot] is Subscribed
    &&& plain.connection is None ==> plain.subject_empty()
}

proof fn lemma_grace_push<Unsub, TaskHandle>(
    size: nat,
    steps: Seq<GraceStep<Unsub, TaskHandle>>,
    step: GraceStep<Unsub, TaskHandle>,
)
    requires
        grace_runs::possible(size, steps, 0),
        grace_runs::reached(size, steps, 0).enabled(step, 0),
    ensures
        grace_runs::possible(size, steps.push(step), 0),
        grace_runs::reached(size, steps.push(step), 0) == grace_runs::reached(
            size,
            steps,
            0,
        ).after(step, 0),
{
    assert(steps.push(step).drop_last() =~= steps);
}

proof fn lemma_ref_count_push<Unsub>(
    size: nat,
    steps: Seq<RefCountStep<Unsub>>,
    step: RefCountStep<Unsub>,
)
    requires
        ref_count_runs::possible(size, steps),
        ref_count_runs::reached(size, steps).enabled(step),
    ensures
        ref_count_runs::possible(size, steps.push(step)),
        ref_count_runs::reached(size, steps.push(step)) == ref_count_runs::reached(
            size,
            steps,
        ).after(step),
{
    assert(steps.push(step).drop_last() =~= steps);
}

/// `act`, done by the operator with a grace period of zero.
proof fn lemma_grace_act<Unsub, TaskHandle, Item>(
    size: nat,
    steps: Seq<GraceStep<Unsub, TaskHandle>>,
    act: Act<Unsub, Item>,
    plain: ref_count_runs::System<Unsub>,
)
    requires
        grace_runs::possible(size, steps, 0),
        alike(grace_runs::reached(size, steps, 0), plain),
        in_order(grace_runs::reached(size, steps, 0), plain, size),
        can_act(plain, act),
    ensures
        ({
            let system = grace_runs::reached(size, steps, 0);
            let all = steps + grace_steps(system, act);
            let after = grace_runs::reached(size, all, 0);
            &&& grace_runs::possible(size, all, 0)
            &&& after.state.pending is None
            &&& match act {
                Act::Subscribe { slot, connection, items, rest } => {
                    &&& after.slots =~= system.slots.update(slot, grace_runs::Slot::Subscribed)
                    &&& system.state.connection is None ==> {
                        &&& after.state.connection == Some(connection)
                        &&& after.live == system.live.insert(connection)
                        &&& after.observers == rest
                    }
                    &&& system.state.connection is Some ==> {
                        &&& after.state.connection == system.state.connection
                        &&& after.live == system.live
                        &&& after.observers == system.observers.insert(slot)
                    }
                },
                Act::Unsubscribe { slot } => {
                    let remaining = system.observers.remove(slot);
                    let empty = remaining =~= Set::<int>::empty();
                    &&& after.slots =~= system.slots.update(slot, grace_runs::Slot::Closed)
                    &&& after.observers == remaining
                    &&& after.state.connection == if empty {
                        None
                    } else {
                        system.state.connection
                    }
                    &&& after.live == if empty && system.state.connection is Some {
                        system.live.remove(system.state.connection->0)
                    } else {
                        system.live
                    }
                },
                Act::Emit { item } => after == system,
                Act::Drain { rest } => {
                    &&& after.slots == system.slots
                    &&& after.observers == rest
                    &&& after.state.connection == system.state.connection
                    &&& after.live == system.live
                },
            }
        }),
{
    let system = grace_runs::reached(size, steps, 0);
    let all = steps + grace_steps(system, act);
    match act {
        Act::Subscribe { slot, connection, items, rest } => {
            let epoch = next_epoch(system.state.epoch);
            let needs_connect = system.state.connection is None;
            let arrival = Arrival { to_cancel: system.state.pending, epoch, needs_connect };
            assert(same_slot(system.slots[slot], plain.slots[slot]));
            let arrived = grace_runs::Step::Take { slot, event: GraceEvent::Arrived(arrival) };
            lemma_grace_push(size, steps, arrived);
            let first = steps.push(arrived);
            let joined = grace_runs::Step::Take { slot, event: GraceEvent::Joined(()) };
            lemma_grace_push(size, first, joined);
            let second = first.push(joined);
            if needs_connect {
                let connected = grace_runs::Step::Take {
                    slot,
                    event: GraceEvent::Connected(connection),
                };
                lemma_grace_push(size, second, connected);
                let third = second.push(connected);
                let drained = grace_runs::Step::Drain { rest };
                lemma_grace_push(size, third, drained);
                let fourth = third.push(drained);
                let parked = grace_runs::Step::Take {
                    slot,
                    event: GraceEvent::Parked { epoch, connection, redundant: None },
                };
                lemma_grace_push(size, fourth, parked);
                assert(all =~= fourth.push(parked));
            } else {
                assert(all =~= second);
            }
        },
        Act::Unsubscribe { slot } => {
            assert(same_slot(system.slots[slot], plain.slots[slot]));
            let empty = system.observers.remove(slot) =~= Set::<int>::empty();
            let left = grace_runs::Step::Take { slot, event: GraceEvent::Left(()) };
            lemma_grace_push(size, steps, left);
            let first = steps.push(left);
            let asked = grace_runs::Step::Take { slot, event: GraceEvent::Asked(empty) };
            lemma_grace_push(size, first, asked);
            let second = first.push(asked);
            if !empty {
                assert(all =~= second);
            } else {
                let connection = system.state.connection;
                let pending = system.state.pending;
                let gone = grace_runs::Step::Take {
                    slot,
                    event: GraceEvent::LetGo { pending, connection },
                };
                lemma_grace_push(size, second, gone);
                let third = second.push(gone);
                match connection {
                    Some(inner) => {
                        let ended = grace_runs::Step::Take {
                            slot,
                            event: GraceEvent::Ended(inner),
                        };
                        lemma_grace_push(size, third, ended);
                        assert(all =~= third.push(ended));
                    },
                    None => {
                        assert(all =~= third);
                    },
                }
            }
        },
        Act::Emit { item } => {
            assert(all =~= steps);
        },
        Act::Drain { rest } => {
            let drained = grace_runs::Step::Drain { rest };
            lemma_grace_push(size, steps, drained);
            assert(all =~= steps.push(drained));
        },
    }
}

/// `act`, done by the operator without a grace period.
proof fn lemma_ref_count_act<Unsub, Item>(size: nat, steps: Seq<RefCountStep<Unsub>>, act: Act<Unsub, Item>)
    requires
        ref_count_runs::possible(size, steps),
        ref_count_runs::reached(size, steps).slots.len() == size,
        forall|slot: int| #[trigger]
            ref_count_runs::reached(size, steps).observers.contains(slot) ==> 0 <= slot < size
                && ref_count_runs::reached(size, steps).slots[slot] is Subscribed,
        ref_count_runs::reached(size, steps).connection is None ==> ref_count_runs::reached(
            size,
            steps,
        ).subject_empty(),
        can_act(ref_count_runs::reached(size, steps), act),
    ensures
        ({
            let system = ref_count_runs::reached(size, steps);
            let all = steps + ref_count_steps(system, act);
            let after = ref_count_runs::reached(size, all);
            &&& ref_count_runs::possible(size, all)
            &&& match act {
                Act::Subscribe { slot, connection, items, rest } => {
                    &&& after.slots =~= system.slots.update(slot, ref_count_runs::Slot::Subscribed)
                    &&& system.connection is None ==> {
                        &&& after.connection == Some(connection)
                        &&& after.live == system.live.insert(connection)
                        &&& after.observers == rest
                    }
                    &&& system.connection is Some ==> {
                        &&& after.connection == system.connection
                        &&& after.live == system.live
                        &&& after.observers == system.observers.insert(slot)
                    }
                },
                Act::Unsubscribe { slot } => {
                    let remaining = system.observers.remove(slot);
                    let empty = remaining =~= Set::<int>::empty();
                    &&& after.slots =~= system.slots.update(slot, ref_count_runs::Slot::Closed)
                    &&& after.observers == remaining
                    &&& after.connection == if empty {
                        None
                    } else {
                        system.connection
                    }
                    &&& after.live == if empty && system.connection is Some {
                        system.live.remove(system.connection->0)
                    } else {
                        system.live
                    }
                },
                Act::Emit { item } => after == system,
                Act::Drain { rest } => {
                    &&& after.slots == system.slots
                    &&& after.observers == rest
                    &&& after.connection == system.connection
                    &&& after.live == system.live
                },
            }
        }),
{
    let system = ref_count_runs::reached(size, steps);
    let all = steps + ref_count_steps(system, act);
    match act {
        Act::Subscribe { slot, connection, items, rest } => {
            let members = system.observers.insert(slot);
            lemma_int_range(0, size as int);
            assert(members.subset_of(set_int_range(0, size as int)));
            lemma_len_subset(members, set_int_range(0, size as int));
            let count = members.len() as usize;
            let joined = ref_count_runs::Step::Take { slot, event: RefCountEvent::Joined(()) };
            lemma_ref_count_push(size, steps, joined);
            let first = steps.push(joined);
            let counted = ref_count_runs::Step::Take { slot, event: RefCountEvent::Counted(count) };
            lemma_ref_count_push(size, first, counted);
            let second = first.push(counted);
            if system.connection is None {
                assert(members =~= set![slot]);
            }
            if count != 1 {
                assert(all =~= second);
            } else {
                let vacant = system.connection is None;
                let looked = ref_count_runs::Step::Take {
                    slot,
                    event: RefCountEvent::Looked(vacant),
                };
                lemma_ref_count_push(size, second, looked);
                let third = second.push(looked);
                if vacant {
                    let connected = ref_count_runs::Step::Take {
                        slot,
                        event: RefCountEvent::Connected(connection),
                    };
                    lemma_ref_count_push(size, third, connected);
                    let fourth = third.push(connected);
                    let drained = ref_count_runs::Step::Drain { rest };
                    lemma_ref_count_push(size, fourth, drained);
                    let fifth = fourth.push(drained);
                    let stored = ref_count_runs::Step::Take {
                        slot,
                        event: RefCountEvent::Stored(connection),
                    };
                    lemma_ref_count_push(size, fifth, stored);
                    assert(all =~= fifth.push(stored));
                } else {
                    assert(all =~= third);
                }
            }
        },
        Act::Unsubscribe { slot } => {
            let empty = system.observers.remove(slot) =~= Set::<int>::empty();
            let left = ref_count_runs::Step::Take { slot, event: RefCountEvent::Left(()) };
            lemma_ref_count_push(size, steps, left);
            let first = steps.push(left);
            let asked = ref_count_runs::Step::Take { slot, event: RefCountEvent::Asked(empty) };
            lemma_ref_count_push(size, first, asked);
            let second = first.push(asked);
            if !empty {
                assert(all =~= second);
            } else {
                let taken = ref_count_runs::Step::Take {
                    slot,
                    event: RefCountEvent::Taken(system.connection),
                };
                lemma_ref_count_push(size, second, taken);
                let third = second.push(taken);
                match system.connection {
                    Some(inner) => {
                        let ended = ref_count_runs::Step::Take {
                            slot,
                            event: RefCountEvent::Ended(inner),
                        };
                        lemma_ref_count_push(size, third, ended);
                        assert(all =~= third.push(ended));
                    },
                    None => {
                        assert(all =~= third);
                    },
                }
            }
        },
        Act::Emit { item } => {
            assert(all =~= steps);
        },
        Act::Drain { rest } => {
            let drained = ref_count_runs::Step::Drain { rest };
            lemma_ref_count_push(size, steps, drained);
            assert(all =~= steps.push(drained));
        },
    }
}

/// Both operators connect the source in the same acts.
proof fn lemma_same_connects<Unsub, TaskHandle, Item>(
    grace: grace_runs::System<Unsub, TaskHandle>,
    plain: ref_count_runs::System<Unsub>,
    size: nat,
    act: Act<Unsub, Item>,
)
    requires
        alike(grace, plain),
        in_order(grace, plain, size),
        can_act(plain, act),
    ensures
        ({
            let with_grace = grace_steps(grace, act);
            let without = ref_count_steps(plain, act);
            (exists|i: int| 0 <= i < with_grace.len() && is_grace_connect(#[trigger] with_grace[i]))
                == (exists|i: int|
                0 <= i < without.len() && is_ref_count_connect(#[trigger] without[i]))
        }),
{
    let with_grace = grace_steps(grace, act);
    let without = ref_count_steps(plain, act);
    if let Act::Subscribe { slot, connection, items, rest } = act {
        if plain.connection is None {
            assert(plain.observers.insert(slot) =~= set![slot]);
            assert(is_grace_connect(with_grace[2]));
            assert(is_ref_count_connect(without[3]));
        }
    }
}

/// Every observer receives the same from both operators.
proof fn lemma_same_items<Unsub, TaskHandle, Item>(
    size: nat,
    acts: Seq<Act<Unsub, Item>>,
    slot: int,
)
    requires
        can_act_all(size, acts),
    ensures
        grace_received::<Unsub, TaskHandle, Item>(size, acts, slot) == ref_count_received(
            size,
            acts,
            slot,
        ),
    decreases acts.len(),
{
    if acts.len() > 0 {
        let earlier = acts.drop_last();
        lemma_same_items::<Unsub, TaskHandle, Item>(size, earlier, slot);
        lemma_zero_grace_is_like_none::<Unsub, TaskHandle, Item>(size, earlier);
        lemma_same_connects(
            grace_runs::reached(
                size,
                all_grace_steps::<Unsub, TaskHandle, Item>(size, earlier),
                0,
            ),
            ref_count_runs::reached(size, all_ref_count_steps(size, earlier)),
            size,
            acts.last(),
        );
    }
}

proof fn lemma_zero_grace_is_like_none<Unsub, TaskHandle, Item>(size: nat, acts: Seq<Act<Unsub, Item>>)
    requires
        can_act_all(size, acts),
    ensures
        ({
            let with_grace = all_grace_steps::<Unsub, TaskHandle, Item>(size, acts);
            let without = all_ref_count_steps(size, acts);
            let grace = grace_runs::reached(size, with_grace, 0);
            let plain = ref_count_runs::reached(size, without);
            &&& grace_runs::possible(size, with_grace, 0)
            &&& ref_count_runs::possible(size, without)
            &&& alike(grace, plain)
            &&& in_order(grace, plain, size)
        }),
    decreases acts.len(),
{
    if acts.len() > 0 {
        let earlier = acts.drop_last();
        lemma_zero_grace_is_like_none::<Unsub, TaskHandle, Item>(size, earlier);
        let with_grace = all_grace_steps::<Unsub, TaskHandle, Item>(size, earlier);
        let without = all_ref_count_steps(size, earlier);
        let grace = grace_runs::reached(size, with_grace, 0);
        let plain = ref_count_runs::reached(size, without);
        lemma_grace_act(size, with_grace, acts.last(), plain);
        lemma_ref_count_act(size, without, acts.last());
        let grace_after = grace_runs::reached(
            size,
            all_grace_steps::<Unsub, TaskHandle, Item>(size, acts),
            0,
        );
        let plain_after = ref_count_runs::reached(size, all_ref_count_steps(size, acts));
        assert forall|slot: int| 0 <= slot < grace_after.slots.len() implies same_slot(
            #[trigger] grace_after.slots[slot],
            #[trigger] plain_after.slots[slot],
        ) by {
            assert(same_slot(grace.slots[slot], plain.slots[slot]));
        }
    }
}

/// Whatever is done, one act after the other, an operator with a grace period of
/// zero cannot be told from one without a grace period: after the last of `acts`
/// the observers, the connection and the live connections of the source are the
/// same, and every observer has received the same items.
pub proof fn law_zero_grace_is_like_none<Unsub, TaskHandle, Item>(
    size: nat,
    acts: Seq<Act<Unsub, Item>>,
)
    requires
        can_act_all(size, acts),
    ensures
        ({
            let with_grace = all_grace_steps::<Unsub, TaskHandle, Item>(size, acts);
            let without = all_ref_count_steps(size, acts);
            &&& grace_runs::possible(size, with_grace, 0)
            &&& ref_count_runs::possible(size, without)
            &&& alike(
                grace_runs::reached(size, with_grace, 0),
                ref_count_runs::reached(size, without),
            )
        }),
        forall|slot: int| #[trigger]
            grace_received::<Unsub, TaskHandle, Item>(size, acts, slot) == ref_count_received(
                size,
                acts,
                slot,
            ),
{
    lemma_zero_grace_is_like_none::<Unsub, TaskHandle, Item>(size, acts);
    assert forall|slot: int| #[trigger]
        grace_received::<Unsub, TaskHandle, Item>(size, acts, slot) == ref_count_received(
            size,
            acts,
            slot,
        ) by {
        lemma_same_items::<Unsub, TaskHandle, Item>(size, acts, slot);
    }
}

} // verus!
