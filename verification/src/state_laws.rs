//! How the calls on a [`GraceState`] fit together, whatever came before: what
//! one of them reports follows from what others were given.
//!
//! A call on a state is written as `call_ensures` of the method, with a mutable
//! reference for the state. Two calls follow each other where the value that
//! one leaves behind is the value that the next one finds.

use crate::grace_state::{Arrival, GraceState};
use vstd::prelude::*;

verus! {

/// Epochs count up, and start over at zero after the largest.
pub open spec fn following(epoch: usize) -> int {
    if epoch < usize::MAX {
        epoch + 1
    } else {
        0
    }
}

/// A state that nothing has happened to has neither a timer nor a connection to
/// hand out, and its first subscriber has to connect.
pub proof fn law_new_state_is_vacant<Unsub, TaskHandle>()
    ensures
        forall|
            state: &mut GraceState<Unsub, TaskHandle>,
            fresh: GraceState<Unsub, TaskHandle>,
            arrival: Arrival<TaskHandle>,
        |
            {
                &&& #[trigger] call_ensures(GraceState::<Unsub, TaskHandle>::new, (), fresh)
                    || call_ensures(
                    <GraceState<Unsub, TaskHandle> as Default>::default,
                    (),
                    fresh,
                )
                &&& *state == fresh
                &&& #[trigger] call_ensures(
                    GraceState::<Unsub, TaskHandle>::arrive,
                    (state,),
                    arrival,
                )
            } ==> arrival.to_cancel is None && arrival.needs_connect && arrival.epoch == 1,
        forall|
            state: &mut GraceState<Unsub, TaskHandle>,
            fresh: GraceState<Unsub, TaskHandle>,
            parts: (Option<TaskHandle>, Option<Unsub>),
        |
            {
                &&& #[trigger] call_ensures(GraceState::<Unsub, TaskHandle>::new, (), fresh)
                    || call_ensures(
                    <GraceState<Unsub, TaskHandle> as Default>::default,
                    (),
                    fresh,
                )
                &&& *state == fresh
                &&& #[trigger] call_ensures(
                    GraceState::<Unsub, TaskHandle>::disconnect,
                    (state,),
                    parts,
                )
            } ==> parts.0 is None && parts.1 is None,
{
}

/// Two arrivals in a row report two epochs in a row, and the second finds no
/// timer. Only the epoch that was reported last is current.
pub proof fn law_arrivals_count_epochs<Unsub, TaskHandle>()
    ensures
        forall|
            first: &mut GraceState<Unsub, TaskHandle>,
            second: &mut GraceState<Unsub, TaskHandle>,
            one: Arrival<TaskHandle>,
            two: Arrival<TaskHandle>,
        |
            {
                &&& #[trigger] call_ensures(
                    GraceState::<Unsub, TaskHandle>::arrive,
                    (first,),
                    one,
                )
                &&& *second == *final(first)
                &&& #[trigger] call_ensures(
                    GraceState::<Unsub, TaskHandle>::arrive,
                    (second,),
                    two,
                )
            } ==> {
                &&& two.epoch == following(one.epoch)
                &&& two.to_cancel is None
                &&& two.needs_connect == one.needs_connect
            },
        forall|
            state: &mut GraceState<Unsub, TaskHandle>,
            arrival: Arrival<TaskHandle>,
            epoch: usize,
            current: bool,
        |
            {
                &&& #[trigger] call_ensures(
                    GraceState::<Unsub, TaskHandle>::arrive,
                    (state,),
                    arrival,
                )
                &&& #[trigger] call_ensures(
                    GraceState::<Unsub, TaskHandle>::is_current,
                    (&*final(state), epoch),
                    current,
                )
            } ==> current == (epoch == arrival.epoch),
        forall|
            state: &mut GraceState<Unsub, TaskHandle>,
            window: usize,
            epoch: usize,
            current: bool,
        |
            {
                &&& #[trigger] call_ensures(
                    GraceState::<Unsub, TaskHandle>::open_window,
                    (state,),
                    window,
                )
                &&& #[trigger] call_ensures(
                    GraceState::<Unsub, TaskHandle>::is_current,
                    (&*final(state), epoch),
                    current,
                )
            } ==> current == (epoch == window),
{
}

/// A connection that is offered under the epoch that an arrival reported, with
/// nothing in between, is kept exactly if the arrival said that one is needed.
/// What is kept is what is handed out when the source is let go.
pub proof fn law_offered_connection_is_kept<Unsub, TaskHandle>()
    ensures
        forall|
            arriving: &mut GraceState<Unsub, TaskHandle>,
            parking: &mut GraceState<Unsub, TaskHandle>,
            leaving: &mut GraceState<Unsub, TaskHandle>,
            arrival: Arrival<TaskHandle>,
            connection: Unsub,
            redundant: Option<Unsub>,
            parts: (Option<TaskHandle>, Option<Unsub>),
        |
            {
                &&& #[trigger] call_ensures(
                    GraceState::<Unsub, TaskHandle>::arrive,
                    (arriving,),
                    arrival,
                )
                &&& *parking == *final(arriving)
                &&& #[trigger] call_ensures(
                    GraceState::<Unsub, TaskHandle>::park,
                    (parking, arrival.epoch, connection),
                    redundant,
                )
                &&& *leaving == *final(parking)
                &&& #[trigger] call_ensures(
                    GraceState::<Unsub, TaskHandle>::disconnect,
                    (leaving,),
                    parts,
                )
            } ==> {
                &&& arrival.needs_connect ==> redundant is None && parts.1 == Some(connection)
                &&& !arrival.needs_connect ==> redundant == Some(connection) && parts.1 is Some
                &&& parts.0 is None
            },
{
}

/// A connection is not kept if somebody else has arrived since, or if a window
/// has opened since.
pub proof fn law_late_connection_is_handed_back<Unsub, TaskHandle>()
    ensures
        forall|
            arriving: &mut GraceState<Unsub, TaskHandle>,
            between: &mut GraceState<Unsub, TaskHandle>,
            parking: &mut GraceState<Unsub, TaskHandle>,
            arrival: Arrival<TaskHandle>,
            other: Arrival<TaskHandle>,
            connection: Unsub,
            redundant: Option<Unsub>,
        |
            {
                &&& #[trigger] call_ensures(
                    GraceState::<Unsub, TaskHandle>::arrive,
                    (arriving,),
                    arrival,
                )
                &&& *between == *final(arriving)
                &&& #[trigger] call_ensures(
                    GraceState::<Unsub, TaskHandle>::arrive,
                    (between,),
                    other,
                )
                &&& *parking == *final(between)
                &&& #[trigger] call_ensures(
                    GraceState::<Unsub, TaskHandle>::park,
                    (parking, arrival.epoch, connection),
                    redundant,
                )
            } ==> redundant == Some(connection),
        forall|
            arriving: &mut GraceState<Unsub, TaskHandle>,
            between: &mut GraceState<Unsub, TaskHandle>,
            parking: &mut GraceState<Unsub, TaskHandle>,
            arrival: Arrival<TaskHandle>,
            window: usize,
            connection: Unsub,
            redundant: Option<Unsub>,
        |
            {
                &&& #[trigger] call_ensures(
                    GraceState::<Unsub, TaskHandle>::arrive,
                    (arriving,),
                    arrival,
                )
                &&& *between == *final(arriving)
                &&& #[trigger] call_ensures(
                    GraceState::<Unsub, TaskHandle>::open_window,
                    (between,),
                    window,
                )
                &&& *parking == *final(between)
                &&& #[trigger] call_ensures(
                    GraceState::<Unsub, TaskHandle>::park,
                    (parking, arrival.epoch, connection),
                    redundant,
                )
            } ==> redundant == Some(connection),
{
}

/// The timer of a window that has just opened is kept, and the next arrival is
/// given it to cancel. If somebody arrives first, the timer is handed back.
pub proof fn law_timer_of_the_window_is_kept<Unsub, TaskHandle>()
    ensures
        forall|
            opening: &mut GraceState<Unsub, TaskHandle>,
            keeping: &mut GraceState<Unsub, TaskHandle>,
            arriving: &mut GraceState<Unsub, TaskHandle>,
            epoch: usize,
            handle: TaskHandle,
            stale: Option<TaskHandle>,
            arrival: Arrival<TaskHandle>,
        |
            {
                &&& #[trigger] call_ensures(
                    GraceState::<Unsub, TaskHandle>::open_window,
                    (opening,),
                    epoch,
                )
                &&& *keeping == *final(opening)
                &&& #[trigger] call_ensures(
                    GraceState::<Unsub, TaskHandle>::keep_timer,
                    (keeping, epoch, handle),
                    stale,
                )
                &&& *arriving == *final(keeping)
                &&& #[trigger] call_ensures(
                    GraceState::<Unsub, TaskHandle>::arrive,
                    (arriving,),
                    arrival,
                )
            } ==> stale is None && arrival.to_cancel == Some(handle) && arrival.epoch != epoch,
        forall|
            opening: &mut GraceState<Unsub, TaskHandle>,
            arriving: &mut GraceState<Unsub, TaskHandle>,
            keeping: &mut GraceState<Unsub, TaskHandle>,
            epoch: usize,
            handle: TaskHandle,
            stale: Option<TaskHandle>,
            arrival: Arrival<TaskHandle>,
        |
            {
                &&& #[trigger] call_ensures(
                    GraceState::<Unsub, TaskHandle>::open_window,
                    (opening,),
                    epoch,
                )
                &&& *arriving == *final(opening)
                &&& #[trigger] call_ensures(
                    GraceState::<Unsub, TaskHandle>::arrive,
                    (arriving,),
                    arrival,
                )
                &&& *keeping == *final(arriving)
                &&& #[trigger] call_ensures(
                    GraceState::<Unsub, TaskHandle>::keep_timer,
                    (keeping, epoch, handle),
                    stale,
                )
            } ==> stale == Some(handle),
{
}

/// Opening a window keeps the connection: an arrival needs to connect after it
/// exactly if one needed to before.
pub proof fn law_window_keeps_the_connection<Unsub, TaskHandle>()
    ensures
        forall|
            before: &mut GraceState<Unsub, TaskHandle>,
            opening: &mut GraceState<Unsub, TaskHandle>,
            after: &mut GraceState<Unsub, TaskHandle>,
            one: Arrival<TaskHandle>,
            epoch: usize,
            two: Arrival<TaskHandle>,
        |
            {
                &&& #[trigger] call_ensures(
                    GraceState::<Unsub, TaskHandle>::arrive,
                    (before,),
                    one,
                )
                &&& *opening == *final(before)
                &&& #[trigger] call_ensures(
                    GraceState::<Unsub, TaskHandle>::open_window,
                    (opening,),
                    epoch,
                )
                &&& *after == *final(opening)
                &&& #[trigger] call_ensures(
                    GraceState::<Unsub, TaskHandle>::arrive,
                    (after,),
                    two,
                )
            } ==> two.needs_connect == one.needs_connect && two.epoch == following(epoch),
{
}

/// What a window that has just opened hands out when it expires is what letting
/// the source go would have handed out, if the subject is empty; otherwise it
/// hands out nothing, and letting the source go still hands out the same.
pub proof fn law_expired_window_hands_out_the_connection<Unsub, TaskHandle>()
    ensures
        forall|
            opening: &mut GraceState<Unsub, TaskHandle>,
            expiring: &mut GraceState<Unsub, TaskHandle>,
            leaving: &mut GraceState<Unsub, TaskHandle>,
            later: &mut GraceState<Unsub, TaskHandle>,
            epoch: usize,
            subject_empty: bool,
            connection: Option<Unsub>,
            parts: (Option<TaskHandle>, Option<Unsub>),
            rest: (Option<TaskHandle>, Option<Unsub>),
        |
            {
                &&& #[trigger] call_ensures(
                    GraceState::<Unsub, TaskHandle>::open_window,
                    (opening,),
                    epoch,
                )
                &&& *expiring == *final(opening)
                &&& *leaving == *final(opening)
                &&& #[trigger] call_ensures(
                    GraceState::<Unsub, TaskHandle>::expire,
                    (expiring, epoch, subject_empty),
                    connection,
                )
                &&& #[trigger] call_ensures(
                    GraceState::<Unsub, TaskHandle>::disconnect,
                    (leaving,),
                    parts,
                )
                &&& *later == *final(expiring)
                &&& #[trigger] call_ensures(
                    GraceState::<Unsub, TaskHandle>::disconnect,
                    (later,),
                    rest,
                )
            } ==> {
                &&& subject_empty ==> connection == parts.1 && rest.1 is None
                &&& !subject_empty ==> connection is None && rest.1 == parts.1
                &&& rest.0 is None
            },
{
}

/// Once somebody has arrived in the window, its expiry hands out nothing, and
/// whoever arrives next finds the connection as it was.
pub proof fn law_arrival_supersedes_the_window<Unsub, TaskHandle>()
    ensures
        forall|
            opening: &mut GraceState<Unsub, TaskHandle>,
            arriving: &mut GraceState<Unsub, TaskHandle>,
            expiring: &mut GraceState<Unsub, TaskHandle>,
            epoch: usize,
            arrival: Arrival<TaskHandle>,
            subject_empty: bool,
            connection: Option<Unsub>,
        |
            {
                &&& #[trigger] call_ensures(
                    GraceState::<Unsub, TaskHandle>::open_window,
                    (opening,),
                    epoch,
                )
                &&& *arriving == *final(opening)
                &&& #[trigger] call_ensures(
                    GraceState::<Unsub, TaskHandle>::arrive,
                    (arriving,),
                    arrival,
                )
                &&& *expiring == *final(arriving)
                &&& #[trigger] call_ensures(
                    GraceState::<Unsub, TaskHandle>::expire,
                    (expiring, epoch, subject_empty),
                    connection,
                )
            } ==> connection is None && final(expiring)@ == expiring@,
{
}

/// Letting the source go, and the expiry of a window over an empty subject,
/// leave nothing behind: the next subscriber has to connect, has no timer to
/// cancel, and a reset of any earlier window stands down.
pub proof fn law_nothing_is_left_behind<Unsub, TaskHandle>()
    ensures
        forall|
            leaving: &mut GraceState<Unsub, TaskHandle>,
            arriving: &mut GraceState<Unsub, TaskHandle>,
            parts: (Option<TaskHandle>, Option<Unsub>),
            arrival: Arrival<TaskHandle>,
        |
            {
                &&& #[trigger] call_ensures(
                    GraceState::<Unsub, TaskHandle>::disconnect,
                    (leaving,),
                    parts,
                )
                &&& *arriving == *final(leaving)
                &&& #[trigger] call_ensures(
                    GraceState::<Unsub, TaskHandle>::arrive,
                    (arriving,),
                    arrival,
                )
            } ==> arrival.needs_connect && arrival.to_cancel is None,
        forall|
            opening: &mut GraceState<Unsub, TaskHandle>,
            expiring: &mut GraceState<Unsub, TaskHandle>,
            arriving: &mut GraceState<Unsub, TaskHandle>,
            epoch: usize,
            connection: Option<Unsub>,
            arrival: Arrival<TaskHandle>,
        |
            {
                &&& #[trigger] call_ensures(
                    GraceState::<Unsub, TaskHandle>::open_window,
                    (opening,),
                    epoch,
                )
                &&& *expiring == *final(opening)
                &&& #[trigger] call_ensures(
                    GraceState::<Unsub, TaskHandle>::expire,
                    (expiring, epoch, true),
                    connection,
                )
                &&& *arriving == *final(expiring)
                &&& #[trigger] call_ensures(
                    GraceState::<Unsub, TaskHandle>::arrive,
                    (arriving,),
                    arrival,
                )
            } ==> arrival.needs_connect && arrival.to_cancel is None && arrival.epoch != epoch,
        forall|
            opening: &mut GraceState<Unsub, TaskHandle>,
            leaving: &mut GraceState<Unsub, TaskHandle>,
            epoch: usize,
            parts: (Option<TaskHandle>, Option<Unsub>),
            current: bool,
        |
            {
                &&& #[trigger] call_ensures(
                    GraceState::<Unsub, TaskHandle>::open_window,
                    (opening,),
                    epoch,
                )
                &&& *leaving == *final(opening)
                &&& #[trigger] call_ensures(
                    GraceState::<Unsub, TaskHandle>::disconnect,
                    (leaving,),
                    parts,
                )
                &&& #[trigger] call_ensures(
                    GraceState::<Unsub, TaskHandle>::is_current,
                    (&*final(leaving), epoch),
                    current,
                )
            } ==> !current,
{
}

/// Each call, in terms of what the state holds before and after it.
pub proof fn law_calls_on_the_state<Unsub, TaskHandle>()
    ensures
        forall|state: &mut GraceState<Unsub, TaskHandle>, arrival: Arrival<TaskHandle>| #[trigger]
            call_ensures(GraceState::<Unsub, TaskHandle>::arrive, (state,), arrival) ==> {
                &&& final(state)@.connection == state@.connection
                &&& final(state)@.pending is None
                &&& final(state)@.epoch == following(state@.epoch)
                &&& arrival.to_cancel == state@.pending
                &&& arrival.epoch == final(state)@.epoch
                &&& arrival.needs_connect == (state@.connection is None)
            },
        forall|
            state: &mut GraceState<Unsub, TaskHandle>,
            epoch: usize,
            connection: Unsub,
            redundant: Option<Unsub>,
        | #[trigger]
            call_ensures(
                GraceState::<Unsub, TaskHandle>::park,
                (state, epoch, connection),
                redundant,
            ) ==> {
                &&& final(state)@.pending == state@.pending
                &&& final(state)@.epoch == state@.epoch
                &&& state@.epoch == epoch && state@.connection is None ==> redundant is None
                    && final(state)@.connection == Some(connection)
                &&& state@.epoch != epoch || state@.connection is Some ==> redundant == Some(
                    connection,
                ) && final(state)@.connection == state@.connection
            },
        forall|
            state: &mut GraceState<Unsub, TaskHandle>,
            parts: (Option<TaskHandle>, Option<Unsub>),
        | #[trigger]
            call_ensures(GraceState::<Unsub, TaskHandle>::disconnect, (state,), parts) ==> {
                &&& parts.0 == state@.pending
                &&& parts.1 == state@.connection
                &&& final(state)@.connection is None
                &&& final(state)@.pending is None
                &&& final(state)@.epoch == following(state@.epoch)
            },
        forall|state: &mut GraceState<Unsub, TaskHandle>, epoch: usize| #[trigger]
            call_ensures(GraceState::<Unsub, TaskHandle>::open_window, (state,), epoch) ==> {
                &&& final(state)@.connection == state@.connection
                &&& final(state)@.pending == state@.pending
                &&& final(state)@.epoch == following(state@.epoch)
                &&& epoch == final(state)@.epoch
            },
        forall|
            state: &mut GraceState<Unsub, TaskHandle>,
            epoch: usize,
            handle: TaskHandle,
            stale: Option<TaskHandle>,
        | #[trigger]
            call_ensures(
                GraceState::<Unsub, TaskHandle>::keep_timer,
                (state, epoch, handle),
                stale,
            ) ==> {
                &&& final(state)@.connection == state@.connection
                &&& final(state)@.epoch == state@.epoch
                &&& state@.epoch == epoch ==> stale is None && final(state)@.pending == Some(handle)
                &&& state@.epoch != epoch ==> stale == Some(handle) && final(state)@.pending
                    == state@.pending
            },
        forall|
            state: &mut GraceState<Unsub, TaskHandle>,
            epoch: usize,
            subject_empty: bool,
            connection: Option<Unsub>,
        | #[trigger]
            call_ensures(
                GraceState::<Unsub, TaskHandle>::expire,
                (state, epoch, subject_empty),
                connection,
            ) ==> {
                &&& state@.epoch != epoch ==> connection is None && final(state)@ == state@
                &&& state@.epoch == epoch && !subject_empty ==> {
                    &&& connection is None
                    &&& final(state)@.connection == state@.connection
                    &&& final(state)@.pending is None
                    &&& final(state)@.epoch == state@.epoch
                }
                &&& state@.epoch == epoch && subject_empty ==> {
                    &&& connection == state@.connection
                    &&& final(state)@.connection is None
                    &&& final(state)@.pending is None
                    &&& final(state)@.epoch == following(state@.epoch)
                }
            },
{
}

} // verus!
