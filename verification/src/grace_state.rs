//! The bookkeeping behind [`RefCountGrace`](crate::grace::RefCountGrace).

use crate::context::Evolving;
use crate::trace::Transition;
use vstd::prelude::*;

verus! {

// ==================== The shared state ====================
/// Connection bookkeeping shared by every clone of a [`RefCountGrace`] and by
/// all of its subscriptions.
///
/// `epoch` moves on in the same section that touches `connection` and
/// `pending`, on every transition: a subscriber arriving, a reset being
/// scheduled, a reset or a departure disconnecting the source. A scheduled
/// reset carries the epoch it was created with and stands down when the two no
/// longer match.
pub struct GraceState<Unsub, TaskHandle> {
    /// The live source subscription, while connected.
    connection: Option<Unsub>,
    /// The in-flight reset timer, while the grace window is open.
    pending: Option<TaskHandle>,
    epoch: usize,
}

/// What a [`GraceState`] holds.
#[verifier::ext_equal]
pub struct GraceView<Unsub, TaskHandle> {
    /// The live source subscription, while connected.
    pub connection: Option<Unsub>,
    /// The in-flight reset timer, while the grace window is open.
    pub pending: Option<TaskHandle>,
    /// Tells a reset whether anything has happened since it was scheduled.
    pub epoch: usize,
}

/// The epoch after `epoch`: one more, or zero after the largest.
pub open spec fn next_epoch(epoch: usize) -> usize {
    if epoch == usize::MAX {
        0
    } else {
        (epoch + 1) as usize
    }
}

impl<Unsub, TaskHandle> GraceView<Unsub, TaskHandle> {
    /// Not connected, no window open, nothing happened yet.
    pub open spec fn initial() -> Self {
        GraceView { connection: None, pending: None, epoch: 0 }
    }

    /// A subscriber has arrived: no window is open any longer.
    pub open spec fn arrive(self) -> Self {
        GraceView { pending: None, epoch: next_epoch(self.epoch), ..self }
    }

    /// A connection made for the subscriber that arrived at `epoch` is the one
    /// to keep: nothing has happened since, and there is no other.
    pub open spec fn wants(self, epoch: usize) -> bool {
        self.epoch == epoch && self.connection is None
    }

    /// A connection made for the subscriber that arrived at `epoch` is there.
    pub open spec fn park(self, epoch: usize, connection: Unsub) -> Self {
        if self.wants(epoch) {
            GraceView { connection: Some(connection), ..self }
        } else {
            self
        }
    }

    /// What becomes superfluous when that connection is there.
    pub open spec fn redundant(self, epoch: usize, connection: Unsub) -> Option<Unsub> {
        if self.wants(epoch) {
            None
        } else {
            Some(connection)
        }
    }

    /// The source is let go: neither a connection nor a window remains.
    pub open spec fn disconnect(self) -> Self {
        GraceView { connection: None, pending: None, epoch: next_epoch(self.epoch) }
    }

    /// A grace window opens; its timer is not known yet.
    pub open spec fn open_window(self) -> Self {
        GraceView { epoch: next_epoch(self.epoch), ..self }
    }

    /// The timer of the window that opened at `epoch` is known: it is kept if
    /// nothing has happened since.
    pub open spec fn keep_timer(self, epoch: usize, handle: TaskHandle) -> Self {
        if self.epoch == epoch {
            GraceView { pending: Some(handle), ..self }
        } else {
            self
        }
    }

    /// What becomes superfluous when that timer is known.
    pub open spec fn stale(self, epoch: usize, handle: TaskHandle) -> Option<TaskHandle> {
        if self.epoch == epoch {
            None
        } else {
            Some(handle)
        }
    }

    /// The window that opened at `epoch` has expired: the source is let go if
    /// nothing has happened since and the subject has no observer.
    pub open spec fn expire(self, epoch: usize, subject_empty: bool) -> Self {
        if self.epoch != epoch {
            self
        } else if !subject_empty {
            GraceView { pending: None, ..self }
        } else {
            self.disconnect()
        }
    }

    /// The connection that is let go when that window has expired.
    pub open spec fn expired(self, epoch: usize, subject_empty: bool) -> Option<Unsub> {
        if self.epoch == epoch && subject_empty {
            self.connection
        } else {
            None
        }
    }
}

impl<Unsub, TaskHandle> View for GraceState<Unsub, TaskHandle> {
    type V = GraceView<Unsub, TaskHandle>;

    closed spec fn view(&self) -> GraceView<Unsub, TaskHandle> {
        GraceView { connection: self.connection, pending: self.pending, epoch: self.epoch }
    }
}

/// What the state tells a subscriber that has just arrived.
pub struct Arrival<TaskHandle> {
    /// The timer of the window that was open, to be cancelled.
    pub to_cancel: Option<TaskHandle>,
    /// The epoch that began with this arrival.
    pub epoch: usize,
    /// Whether the subscriber has to connect the source.
    pub needs_connect: bool,
}

impl<Unsub, TaskHandle> GraceState<Unsub, TaskHandle> {
    /// Not connected, no window open.
    pub fn new() -> (state: Self)
        ensures
            state@ == GraceView::<Unsub, TaskHandle>::initial(),
    {
        GraceState { connection: None, pending: None, epoch: 0 }
    }

    /// Notes that a subscriber arrives, which closes any open grace window.
    pub fn arrive(&mut self) -> (arrival: Arrival<TaskHandle>)
        ensures
            final(self)@ == old(self)@.arrive(),
            arrival.to_cancel == old(self)@.pending,
            arrival.epoch == next_epoch(old(self)@.epoch),
            arrival.needs_connect == (old(self)@.connection is None),
    {
        self.epoch = self.epoch.wrapping_add(1);
        Arrival {
            to_cancel: self.pending.take(),
            epoch: self.epoch,
            needs_connect: self.connection.is_none(),
        }
    }

    /// Keeps the connection that was made for the subscriber that arrived at
    /// `epoch`, or hands it back.
    pub fn park(&mut self, epoch: usize, connection: Unsub) -> (redundant: Option<Unsub>)
        ensures
            final(self)@ == old(self)@.park(epoch, connection),
            redundant == old(self)@.redundant(epoch, connection),
    {
        if self.epoch == epoch && self.connection.is_none() {
            self.connection = Some(connection);
            None
        } else {
            Some(connection)
        }
    }

    /// Lets the source go. Hands out the timer to cancel and the connection to
    /// end.
    pub fn disconnect(&mut self) -> (parts: (Option<TaskHandle>, Option<Unsub>))
        ensures
            final(self)@ == old(self)@.disconnect(),
            parts == (old(self)@.pending, old(self)@.connection),
    {
        self.epoch = self.epoch.wrapping_add(1);
        (self.pending.take(), self.connection.take())
    }

    /// Opens a grace window, and gives the epoch that begins with it.
    pub fn open_window(&mut self) -> (epoch: usize)
        ensures
            final(self)@ == old(self)@.open_window(),
            epoch == next_epoch(old(self)@.epoch),
    {
        self.epoch = self.epoch.wrapping_add(1);
        self.epoch
    }

    /// Keeps the timer of the window that opened at `epoch`, or hands it back.
    pub fn keep_timer(&mut self, epoch: usize, handle: TaskHandle) -> (stale: Option<TaskHandle>)
        ensures
            final(self)@ == old(self)@.keep_timer(epoch, handle),
            stale == old(self)@.stale(epoch, handle),
    {
        if self.epoch == epoch {
            self.pending = Some(handle);
            None
        } else {
            Some(handle)
        }
    }

    /// Whether nothing has happened since `epoch` began.
    pub fn is_current(&self, epoch: usize) -> (current: bool)
        ensures
            current == (self@.epoch == epoch),
    {
        self.epoch == epoch
    }

    /// Deals with the end of the window that opened at `epoch`, while the
    /// subject is empty or not. Hands out the connection to end.
    pub fn expire(&mut self, epoch: usize, subject_empty: bool) -> (connection: Option<Unsub>)
        ensures
            final(self)@ == old(self)@.expire(epoch, subject_empty),
            connection == old(self)@.expired(epoch, subject_empty),
    {
        if self.epoch != epoch {
            // Superseded: a subscriber arrived, or another reset already ran.
            None
        } else if !subject_empty {
            self.pending = None;
            None
        } else {
            self.pending = None;
            self.epoch = self.epoch.wrapping_add(1);
            self.connection.take()
        }
    }
}

impl<Unsub, TaskHandle> Default for GraceState<Unsub, TaskHandle> {
    /// Not connected, no window open.
    fn default() -> (state: Self)
        ensures
            state@ == GraceView::<Unsub, TaskHandle>::initial(),
    {
        Self::new()
    }
}

impl<Unsub, TaskHandle> Evolving for GraceState<Unsub, TaskHandle> {
    /// Each section makes one transition.
    open spec fn evolves(before: Self, after: Self) -> bool {
        exists|transition: Transition<Unsub, TaskHandle>|
            after@ == #[trigger] transition.apply(before@)
    }
}

} // verus!
