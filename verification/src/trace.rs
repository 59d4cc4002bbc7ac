//! What holds of a [`GraceState`] over any number of sections, whichever
//! subscribers and resets they belong to and however these interleave.

use crate::context::{leads, linked, reaches, Section};
use crate::grace::{Arrive, Disconnect, Expire, KeepTimer, OpenWindow, Park};
use crate::grace_state::{next_epoch, Arrival, GraceState, GraceView};
use crate::subject::{found_empty, Subscribers};
use vstd::arithmetic::div_mod::lemma_small_mod;
use vstd::multiset::Multiset;
use vstd::prelude::*;

verus! {

/// One change of the shared state.
pub enum Transition<Unsub, TaskHandle> {
    /// A subscriber arrives.
    Arrive,
    /// The subscriber that arrived at `epoch` offers its connection.
    Park { epoch: usize, connection: Unsub },
    /// The last subscriber has left, and the source is let go.
    Disconnect,
    /// The last subscriber has left, and a grace window opens.
    OpenWindow,
    /// The timer of the window that opened at `epoch` is offered.
    KeepTimer { epoch: usize, handle: TaskHandle },
    /// The window that opened at `epoch` has expired.
    Expire { epoch: usize, subject_empty: bool },
}

impl<Unsub, TaskHandle> Transition<Unsub, TaskHandle> {
    /// The state after the transition.
    pub open spec fn apply(self, state: GraceView<Unsub, TaskHandle>) -> GraceView<
        Unsub,
        TaskHandle,
    > {
        match self {
            Transition::Arrive => state.arrive(),
            Transition::Park { epoch, connection } => state.park(epoch, connection),
            Transition::Disconnect => state.disconnect(),
            Transition::OpenWindow => state.open_window(),
            Transition::KeepTimer { epoch, handle } => state.keep_timer(epoch, handle),
            Transition::Expire { epoch, subject_empty } => state.expire(epoch, subject_empty),
        }
    }

    /// The transition moves the epoch on.
    pub open spec fn moves_epoch(self, state: GraceView<Unsub, TaskHandle>) -> bool {
        match self {
            Transition::Arrive | Transition::Disconnect | Transition::OpenWindow => true,
            Transition::Expire { epoch, subject_empty } => state.epoch == epoch && subject_empty,
            Transition::Park { .. } | Transition::KeepTimer { .. } => false,
        }
    }

    /// The connection that comes in with the transition.
    pub open spec fn offered(self) -> Option<Unsub> {
        match self {
            Transition::Park { epoch, connection } => Some(connection),
            _ => None,
        }
    }

    /// The connection that is handed out by the transition, to be ended.
    pub open spec fn handed_out(self, state: GraceView<Unsub, TaskHandle>) -> Option<Unsub> {
        match self {
            Transition::Park { epoch, connection } => state.redundant(epoch, connection),
            Transition::Disconnect => state.connection,
            Transition::Expire { epoch, subject_empty } => state.expired(epoch, subject_empty),
            _ => None,
        }
    }

    /// The transition turns `before` into `after` and hands out `connection`.
    pub open spec fn makes(
        self,
        before: GraceView<Unsub, TaskHandle>,
        after: GraceView<Unsub, TaskHandle>,
        connection: Option<Unsub>,
    ) -> bool {
        after == self.apply(before) && connection == self.handed_out(before)
    }
}

/// The state after all of `trace`.
pub open spec fn run<Unsub, TaskHandle>(
    state: GraceView<Unsub, TaskHandle>,
    trace: Seq<Transition<Unsub, TaskHandle>>,
) -> GraceView<Unsub, TaskHandle>
    decreases trace.len(),
{
    if trace.len() == 0 {
        state
    } else {
        trace.last().apply(run(state, trace.drop_last()))
    }
}

/// How often `trace` moves the epoch on.
pub open spec fn moves<Unsub, TaskHandle>(
    state: GraceView<Unsub, TaskHandle>,
    trace: Seq<Transition<Unsub, TaskHandle>>,
) -> nat
    decreases trace.len(),
{
    if trace.len() == 0 {
        0
    } else {
        moves(state, trace.drop_last()) + if trace.last().moves_epoch(
            run(state, trace.drop_last()),
        ) {
            1nat
        } else {
            0nat
        }
    }
}

/// `connection`, if there is one, as a collection.
pub open spec fn at_most_one<Unsub>(connection: Option<Unsub>) -> Multiset<Unsub> {
    match connection {
        Some(inner) => Multiset::singleton(inner),
        None => Multiset::empty(),
    }
}

/// All connections that come in with `trace`.
pub open spec fn all_offered<Unsub, TaskHandle>(
    trace: Seq<Transition<Unsub, TaskHandle>>,
) -> Multiset<Unsub>
    decreases trace.len(),
{
    if trace.len() == 0 {
        Multiset::empty()
    } else {
        all_offered(trace.drop_last()).add(at_most_one(trace.last().offered()))
    }
}

/// All connections that `trace` hands out to be ended.
pub open spec fn all_handed_out<Unsub, TaskHandle>(
    state: GraceView<Unsub, TaskHandle>,
    trace: Seq<Transition<Unsub, TaskHandle>>,
) -> Multiset<Unsub>
    decreases trace.len(),
{
    if trace.len() == 0 {
        Multiset::empty()
    } else {
        all_handed_out(state, trace.drop_last()).add(
            at_most_one(trace.last().handed_out(run(state, trace.drop_last()))),
        )
    }
}

/// The arrival section makes one transition.
pub proof fn law_arrive_is_a_transition<Unsub, TaskHandle>(
    section: Arrive,
    before: GraceState<Unsub, TaskHandle>,
    after: GraceState<Unsub, TaskHandle>,
    out: Arrival<TaskHandle>,
)
    requires
        section.effect(before, after, out),
    ensures
        Transition::<Unsub, TaskHandle>::Arrive.makes(before@, after@, None),
        out.epoch == after@.epoch,
{
}

/// The section that offers a connection makes one transition, and reports what
/// that hands out.
pub proof fn law_park_is_a_transition<Unsub, TaskHandle>(
    section: Park<Unsub>,
    before: GraceState<Unsub, TaskHandle>,
    after: GraceState<Unsub, TaskHandle>,
    out: Option<Unsub>,
)
    requires
        section.effect(before, after, out),
    ensures
        (Transition::<Unsub, TaskHandle>::Park {
            epoch: section.epoch,
            connection: section.connection,
        }).makes(before@, after@, out),
{
}

/// The section that lets the source go makes one transition, and reports what
/// that hands out.
pub proof fn law_disconnect_is_a_transition<Unsub, TaskHandle>(
    section: Disconnect,
    before: GraceState<Unsub, TaskHandle>,
    after: GraceState<Unsub, TaskHandle>,
    out: (Option<TaskHandle>, Option<Unsub>),
)
    requires
        section.effect(before, after, out),
    ensures
        Transition::<Unsub, TaskHandle>::Disconnect.makes(before@, after@, out.1),
{
}

/// The section that opens a window makes one transition.
pub proof fn law_open_window_is_a_transition<Unsub, TaskHandle>(
    section: OpenWindow,
    before: GraceState<Unsub, TaskHandle>,
    after: GraceState<Unsub, TaskHandle>,
    out: usize,
)
    requires
        section.effect(before, after, out),
    ensures
        Transition::<Unsub, TaskHandle>::OpenWindow.makes(before@, after@, None),
        out == after@.epoch,
{
}

/// The section that offers a timer makes one transition.
pub proof fn law_keep_timer_is_a_transition<Unsub, TaskHandle>(
    section: KeepTimer<TaskHandle>,
    before: GraceState<Unsub, TaskHandle>,
    after: GraceState<Unsub, TaskHandle>,
    out: Option<TaskHandle>,
)
    requires
        section.effect(before, after, out),
    ensures
        (Transition::<Unsub, TaskHandle>::KeepTimer {
            epoch: section.epoch,
            handle: section.handle,
        }).makes(before@, after@, None),
{
}

/// The section of a reset makes one transition, and reports what that hands
/// out.
pub proof fn law_expire_is_a_transition<'a, P: Subscribers, Unsub, TaskHandle>(
    section: Expire<'a, P>,
    before: GraceState<Unsub, TaskHandle>,
    after: GraceState<Unsub, TaskHandle>,
    out: Option<Unsub>,
)
    requires
        section.effect(before, after, out),
    ensures
        exists|subject_empty: bool| #[trigger]
            (Transition::<Unsub, TaskHandle>::Expire {
                epoch: section.epoch(),
                subject_empty,
            }).makes(before@, after@, out),
{
    if before@.epoch != section.epoch() {
        let transition = Transition::<Unsub, TaskHandle>::Expire {
            epoch: section.epoch(),
            subject_empty: true,
        };
        assert(transition.makes(before@, after@, out));
    } else {
        let empty = choose|empty: bool| #[trigger]
            found_empty(section.subject(), empty) && after@ == before@.expire(section.epoch(), empty)
                && out == before@.expired(section.epoch(), empty);
        let transition = Transition::<Unsub, TaskHandle>::Expire {
            epoch: section.epoch(),
            subject_empty: empty,
        };
        assert(transition.makes(before@, after@, out));
    }
}

proof fn lemma_history_has_a_trace<Unsub, TaskHandle>(
    history: Seq<GraceState<Unsub, TaskHandle>>,
    start: GraceState<Unsub, TaskHandle>,
    value: GraceState<Unsub, TaskHandle>,
) -> (trace: Seq<Transition<Unsub, TaskHandle>>)
    requires
        leads(history, start, value),
    ensures
        run(start@, trace) == value@,
    decreases history.len(),
{
    if history.len() == 1 {
        seq![]
    } else {
        let earlier = history.drop_last();
        let before = earlier.last();
        assert forall|i: int| 0 <= i < earlier.len() - 1 implies #[trigger] linked(earlier, i) by {
            assert(linked(history, i));
        }
        let trace = lemma_history_has_a_trace(earlier, start, before);
        assert(linked(history, history.len() - 2));
        let transition = choose|transition: Transition<Unsub, TaskHandle>|
            value@ == #[trigger] transition.apply(before@);
        assert(trace.push(transition).drop_last() =~= trace);
        trace.push(transition)
    }
}

/// Whatever a section finds in a shared cell has come from the state that was
/// shared at first by some sequence of transitions, so that what holds of all
/// sequences holds of it.
pub proof fn law_found_state_has_a_trace<Unsub, TaskHandle>(
    start: GraceState<Unsub, TaskHandle>,
    found: GraceState<Unsub, TaskHandle>,
)
    requires
        reaches(start, found),
    ensures
        exists|trace: Seq<Transition<Unsub, TaskHandle>>| #[trigger] run(start@, trace) == found@,
{
    let history = choose|history: Seq<GraceState<Unsub, TaskHandle>>| #[trigger]
        leads(history, start, found);
    let trace = lemma_history_has_a_trace(history, start, found);
    assert(run(start@, trace) == found@);
}

/// The epoch counts the transitions that move it, around the range of `usize`.
pub proof fn law_epoch_counts_moves<Unsub, TaskHandle>(
    state: GraceView<Unsub, TaskHandle>,
    trace: Seq<Transition<Unsub, TaskHandle>>,
)
    ensures
        run(state, trace).epoch == (state.epoch + moves(state, trace)) % (usize::MAX + 1),
    decreases trace.len(),
{
    if trace.len() == 0 {
        lemma_small_mod(state.epoch as nat, (usize::MAX + 1) as nat);
    } else {
        let previous = trace.drop_last();
        law_epoch_counts_moves(state, previous);
        let total = state.epoch + moves(state, previous);
        let range = usize::MAX + 1;
        assert((total + 1) % range == if total % range == range - 1 {
            0
        } else {
            total % range + 1
        }) by (nonlinear_arith)
            requires
                range > 1,
                total >= 0,
        ;
    }
}

/// Every subscriber that arrives, every window that opens, every departure that
/// lets the source go, and every reset that lets it go, begins a new epoch; and
/// nothing else does.
pub proof fn law_epoch_moves_on_every_transition<Unsub, TaskHandle>(
    state: GraceView<Unsub, TaskHandle>,
    transition: Transition<Unsub, TaskHandle>,
)
    ensures
        transition.moves_epoch(state) <==> transition.apply(state).epoch != state.epoch,
        transition is Arrive || transition is OpenWindow || transition is Disconnect
            ==> transition.moves_epoch(state),
        transition matches Transition::Expire { epoch, subject_empty } ==> (transition.moves_epoch(
            state,
        ) <==> epoch == state.epoch && subject_empty),
{
}

/// A trace moves the epoch at least once if a subscriber arrives in it.
proof fn lemma_arrival_moves<Unsub, TaskHandle>(
    state: GraceView<Unsub, TaskHandle>,
    trace: Seq<Transition<Unsub, TaskHandle>>,
)
    ensures
        trace.contains(Transition::Arrive) ==> moves(state, trace) >= 1,
    decreases trace.len(),
{
    if trace.len() > 0 {
        let previous = trace.drop_last();
        lemma_arrival_moves(state, previous);
        if trace.contains(Transition::Arrive) && !(trace.last() is Arrive) {
            let i = choose|i: int| 0 <= i < trace.len() && trace[i] == Transition::<
                Unsub,
                TaskHandle,
            >::Arrive;
            assert(previous[i] == Transition::<Unsub, TaskHandle>::Arrive);
        }
    }
}

/// Once the epoch has moved on, a reset that was scheduled before stands down:
/// it changes nothing and hands out nothing. This holds until the epoch comes
/// round to the same value.
pub proof fn law_superseded_reset_stands_down<Unsub, TaskHandle>(
    state: GraceView<Unsub, TaskHandle>,
    trace: Seq<Transition<Unsub, TaskHandle>>,
    subject_empty: bool,
)
    requires
        1 <= moves(state, trace) <= usize::MAX,
    ensures
        run(state, trace).expire(state.epoch, subject_empty) == run(state, trace),
        run(state, trace).expired(state.epoch, subject_empty) is None,
{
    law_epoch_counts_moves(state, trace);
    let count = moves(state, trace);
    let range = usize::MAX + 1;
    let start = state.epoch as int;
    assert((start + count) % range != start) by (nonlinear_arith)
        requires
            0 <= start < range,
            1 <= count < range,
    ;
}

/// A reset never tears down a connection that has gained a subscriber since the
/// reset was scheduled, whatever else has happened in between. `state` is the
/// state when the reset's window opened. This holds until the epoch comes round
/// to the same value.
pub proof fn law_reset_spares_later_subscribers<Unsub, TaskHandle>(
    state: GraceView<Unsub, TaskHandle>,
    trace: Seq<Transition<Unsub, TaskHandle>>,
    subject_empty: bool,
)
    requires
        trace.contains(Transition::Arrive),
        moves(state, trace) <= usize::MAX,
    ensures
        run(state, trace).expire(state.epoch, subject_empty) == run(state, trace),
        run(state, trace).expired(state.epoch, subject_empty) is None,
{
    lemma_arrival_moves(state, trace);
    law_superseded_reset_stands_down(state, trace, subject_empty);
}

/// A reset leaves the connection alone while the subject has an observer.
pub proof fn law_reset_spares_observers<Unsub, TaskHandle>(
    state: GraceView<Unsub, TaskHandle>,
    epoch: usize,
)
    ensures
        state.expire(epoch, false).connection == state.connection,
        state.expire(epoch, false).epoch == state.epoch,
        state.expired(epoch, false) is None,
{
}

/// If nothing moves the epoch while a window is open, the connection is held
/// until the window expires, and is let go then if the subject is empty.
/// `state` is the state when the window opened.
pub proof fn law_undisturbed_window_disconnects<Unsub, TaskHandle>(
    state: GraceView<Unsub, TaskHandle>,
    trace: Seq<Transition<Unsub, TaskHandle>>,
)
    requires
        moves(state, trace) == 0,
    ensures
        run(state, trace).epoch == state.epoch,
        state.connection is Some ==> run(state, trace).connection == state.connection,
        run(state, trace).expired(state.epoch, true) == run(state, trace).connection,
        run(state, trace).expire(state.epoch, true).connection is None,
        run(state, trace).expire(state.epoch, true).pending is None,
    decreases trace.len(),
{
    if trace.len() > 0 {
        law_undisturbed_window_disconnects(state, trace.drop_last());
    }
}

/// A subscriber that arrives while a window is open is handed the window's
/// timer to cancel, finds the source connected, and keeps the connection.
/// `state` is the state before the window opened.
pub proof fn law_arrival_in_window_rejoins<Unsub, TaskHandle>(
    state: GraceView<Unsub, TaskHandle>,
    handle: TaskHandle,
    section: Arrive,
    before: GraceState<Unsub, TaskHandle>,
    after: GraceState<Unsub, TaskHandle>,
    arrival: Arrival<TaskHandle>,
)
    requires
        state.connection is Some,
        before@ == state.open_window().keep_timer(next_epoch(state.epoch), handle),
        section.effect(before, after, arrival),
    ensures
        arrival.to_cancel == Some(handle),
        !arrival.needs_connect,
        after@.connection == state.connection,
        after@.pending is None,
{
}

/// A connection that is held is let go by nothing but a departure that
/// disconnects or a reset that is still current and finds the subject empty,
/// and is then handed out. In particular any number of subscribers share it.
pub proof fn law_only_the_end_lets_go<Unsub, TaskHandle>(
    state: GraceView<Unsub, TaskHandle>,
    transition: Transition<Unsub, TaskHandle>,
)
    requires
        state.connection is Some,
        transition.apply(state).connection != state.connection,
    ensures
        transition is Disconnect || transition == (Transition::<Unsub, TaskHandle>::Expire {
            epoch: state.epoch,
            subject_empty: true,
        }),
        transition.apply(state).connection is None,
        transition.handed_out(state) == state.connection,
{
}

/// No connection is lost and none is ended twice: those that came in are the one
/// that is held and those that were handed out.
pub proof fn law_connections_are_conserved<Unsub, TaskHandle>(
    state: GraceView<Unsub, TaskHandle>,
    trace: Seq<Transition<Unsub, TaskHandle>>,
)
    ensures
        at_most_one(state.connection).add(all_offered(trace)) =~= at_most_one(
            run(state, trace).connection,
        ).add(all_handed_out(state, trace)),
    decreases trace.len(),
{
    broadcast use vstd::multiset::group_multiset_axioms;

    if trace.len() > 0 {
        let previous = trace.drop_last();
        law_connections_are_conserved(state, previous);
        let before = run(state, previous);
        let last = trace.last();
        let start = at_most_one(state.connection).add(all_offered(previous));
        let middle = at_most_one(before.connection).add(at_most_one(last.offered()));
        assert(middle =~= at_most_one(last.apply(before).connection).add(
            at_most_one(last.handed_out(before)),
        ));
        assert forall|connection: Unsub| #[trigger]
            at_most_one(state.connection).add(all_offered(trace)).count(connection)
                == at_most_one(run(state, trace).connection).add(
                all_handed_out(state, trace),
            ).count(connection) by {
            assert(start.count(connection) == at_most_one(before.connection).add(
                all_handed_out(state, previous),
            ).count(connection));
            assert(middle.count(connection) == at_most_one(last.apply(before).connection).add(
                at_most_one(last.handed_out(before)),
            ).count(connection));
        }
    }
}

} // verus!
