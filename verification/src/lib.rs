//! Sharing one source subscription between many subscribers.
//!
//! A connectable source is subscribed to once, through a subject, however many
//! observers want its items. [`RefCount`] connects it when the first observer
//! subscribes and disconnects it when the last one leaves. [`RefCountGrace`]
//! does the same, but keeps the source alive for a grace period after the last
//! observer has left, so that one which arrives soon after joins the live
//! connection.
//!
//! The observers, the source and the scheduler are the caller's: they come in
//! through the traits of [`context`], [`subject`] and [`scheduler`], and may
//! call back into the operators at any point where no state is held. What the
//! operators promise is stated in three layers.
//!
//! - Every change of the shared state is a section with an exact contract
//!   ([`grace`], [`ref_count`]), over a state that is described on its own
//!   ([`grace_state`]).
//! - Every operation is written against a ledger ([`grace_ledger`],
//!   [`ref_count_ledger`]): it can reach nothing but through the ledger, and
//!   every call enters one event. The contract of the operation gives the whole
//!   of what it enters, in order ([`grace`], [`ref_count`]). [`live`] runs the
//!   operations on the caller's values, under the ledgers of [`grace_journal`]
//!   and [`ref_count_journal`].
//! - What follows for any number of operations, however they interleave, is
//!   proved of those sections and events ([`trace`], [`grace_runs`],
//!   [`ref_count_runs`], [`zero_window`]).
//!
//! What the calls are for is stated once more from the outside, over what goes
//! into them and what comes out ([`grace_laws`], [`ref_count_laws`],
//! [`state_laws`]).

pub mod context;
pub mod grace;
pub mod grace_journal;
pub mod grace_laws;
pub mod grace_ledger;
pub mod grace_runs;
pub mod grace_state;
pub mod live;
pub mod ref_count;
pub mod ref_count_journal;
pub mod ref_count_laws;
pub mod ref_count_ledger;
pub mod ref_count_runs;
pub mod scheduler;
pub mod state_laws;
pub mod subject;
pub mod trace;
pub mod zero_window;

pub use context::{Evolving, MutArc, Section, SharedCell, Subscription};
pub use grace::{
    departure, Departure, GraceCell, GraceTask, RefCountGrace, RefCountGraceSubscription,
};
pub use grace_journal::GraceJournal;
pub use grace_ledger::GraceEvent;
pub use grace_state::{Arrival, GraceState};
pub use live::grace_reset_handler;
pub use ref_count::{ConnectionCell, RefCount, RefCountSubscription};
pub use ref_count_journal::RefCountJournal;
pub use ref_count_ledger::RefCountEvent;
pub use scheduler::{Duration, Scheduler, Task, TaskState};
pub use subject::{ConnectableObservable, CoreObservable, Observers, Subject, Subscribers};
