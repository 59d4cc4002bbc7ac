use std::cell::{Cell, RefCell};
use std::rc::Rc;

use refcount_grace::context::SharedCell;
use refcount_grace::grace::{KeepTimer, Park};
use refcount_grace::ref_count::{IsVacant, Store};
use refcount_grace::{
    grace_reset_handler, Duration, GraceJournal, GraceState, GraceTask, MutArc,
    RefCountGraceSubscription, Scheduler, Subject, Subscribers, Subscription, Task, TaskState,
};

type State = GraceState<&'static str, u32>;

#[test]
fn a_new_state_is_not_connected() {
    let mut state: State = GraceState::new();
    let arrival = state.arrive();
    assert_eq!(arrival.to_cancel, None);
    assert_eq!(arrival.epoch, 1);
    assert!(arrival.needs_connect);

    let mut other: State = State::default();
    assert!(other.is_current(0));
    assert_eq!(other.disconnect(), (None, None));
    assert!(other.is_current(1));
}

#[test]
fn the_first_connection_is_kept() {
    let mut state: State = GraceState::new();
    let epoch = state.arrive().epoch;
    assert_eq!(state.park(epoch, "a"), None);
    assert_eq!(state.park(epoch, "b"), Some("b"));
    assert!(!state.arrive().needs_connect);
    assert_eq!(state.disconnect(), (None, Some("a")));
}

#[test]
fn a_connection_from_a_past_epoch_is_handed_back() {
    let mut state: State = GraceState::new();
    let epoch = state.arrive().epoch;
    let later = state.arrive().epoch;
    assert_eq!(later, 2);
    assert_eq!(state.park(epoch, "a"), Some("a"));
    assert_eq!(state.park(later, "b"), None);
}

#[test]
fn an_arrival_in_the_window_gets_the_timer_and_keeps_the_connection() {
    let mut state: State = GraceState::new();
    let epoch = state.arrive().epoch;
    assert_eq!(state.park(epoch, "a"), None);
    let window = state.open_window();
    assert_eq!(window, 2);
    assert_eq!(state.keep_timer(window, 17), None);

    let arrival = state.arrive();
    assert_eq!(arrival.to_cancel, Some(17));
    assert!(!arrival.needs_connect);
    assert_eq!(state.expire(window, true), None);
    assert_eq!(state.disconnect(), (None, Some("a")));
}

#[test]
fn a_stale_timer_is_handed_back() {
    let mut state: State = GraceState::new();
    let window = state.open_window();
    let _ = state.arrive();
    assert_eq!(state.keep_timer(window, 17), Some(17));
    assert_eq!(state.disconnect(), (None, None));
}

#[test]
fn an_expired_window_lets_go_only_if_nobody_is_there() {
    let mut state: State = GraceState::new();
    let epoch = state.arrive().epoch;
    assert_eq!(state.park(epoch, "a"), None);
    let window = state.open_window();
    assert_eq!(state.keep_timer(window, 17), None);
    assert_eq!(state.expire(window, false), None);
    assert!(state.is_current(window));
    assert_eq!(state.expire(window, true), Some("a"));
    assert!(!state.is_current(window));
    assert_eq!(state.expire(window, true), None);
    assert!(state.arrive().needs_connect);
}

struct Nobody {
    present: Rc<Cell<usize>>,
    asked: Rc<Cell<usize>>,
}

impl Subscribers for Nobody {
    fn subscriber_count(&self) -> usize {
        self.present.get()
    }

    fn is_empty(&self) -> bool {
        self.asked.set(self.asked.get() + 1);
        self.present.get() == 0
    }
}

struct Connection {
    ended: Rc<Cell<bool>>,
}

impl Subscription for Connection {
    fn unsubscribe(self) {
        self.ended.set(true);
    }

    fn is_closed(&self) -> bool {
        self.ended.get()
    }
}

type Cells = MutArc<GraceState<Connection, Connection>>;

type Reset = GraceTask<Nobody, Cells>;

struct Keeper {
    kept: Rc<RefCell<Option<Reset>>>,
    cancelled: Rc<Cell<bool>>,
}

impl Scheduler<Reset> for Keeper {
    type TaskHandle = Connection;

    fn schedule(&self, task: Reset, delay: Option<Duration>) -> Connection {
        assert_eq!(delay.map(|span| span.as_nanos()), Some(5_000_000));
        *self.kept.borrow_mut() = Some(task);
        Connection { ended: self.cancelled.clone() }
    }
}

#[test]
fn the_reset_handler_asks_only_if_its_epoch_is_current() {
    let present = Rc::new(Cell::new(0));
    let asked = Rc::new(Cell::new(0));
    let ended = Rc::new(Cell::new(false));
    let left = Rc::new(Cell::new(false));
    let cancelled = Rc::new(Cell::new(false));
    let kept = Rc::new(RefCell::new(None));

    let mut start: GraceState<Connection, Connection> = GraceState::new();
    let epoch = start.arrive().epoch;
    assert!(start.park(epoch, Connection { ended: ended.clone() }).is_none());
    let state: Cells = MutArc::new(start);

    let subject = Subject { observers: Nobody { present: present.clone(), asked: asked.clone() } };
    assert_eq!(subject.subscriber_count(), 0);
    let subscription = RefCountGraceSubscription {
        subject,
        inner: Connection { ended: left.clone() },
        state: state.clone(),
        grace: Duration::from_millis(5),
        scheduler: Keeper { kept: kept.clone(), cancelled: cancelled.clone() },
    };
    assert!(!subscription.is_closed());
    subscription.unsubscribe_under(&mut GraceJournal::new());
    assert!(left.get());
    assert_eq!(asked.get(), 1);
    let mut task: Reset = kept.borrow_mut().take().unwrap();

    present.set(1);
    assert_eq!(grace_reset_handler(&mut task), TaskState::Finished);
    assert_eq!(asked.get(), 2);
    assert!(!ended.get());

    present.set(0);
    assert_eq!(task.run(), TaskState::Finished);
    assert_eq!(asked.get(), 3);
    assert!(ended.get());

    assert_eq!(task.run(), TaskState::Finished);
    assert_eq!(grace_reset_handler(&mut task), TaskState::Finished);
    let mut journal: GraceJournal<Connection, Connection, ()> = GraceJournal::new();
    assert_eq!(task.reset_under(&mut journal), TaskState::Finished);
    assert_eq!(asked.get(), 3);
    assert!(!cancelled.get());
    assert_ne!(TaskState::Finished, TaskState::Again);
}

#[test]
fn a_shared_cell_starts_from_the_value_it_was_made_with() {
    let mut state: State = GraceState::new();
    let epoch = state.arrive().epoch;
    let window = state.open_window();
    assert_eq!((epoch, window), (1, 2));

    let cell: MutArc<State> = MutArc::new(state);
    assert_eq!(cell.clone().update(KeepTimer { epoch: 1, handle: 17 }), Some(17));
    assert_eq!(cell.update(KeepTimer { epoch: 2, handle: 17 }), None);
    assert_eq!(cell.clone().update(Park { epoch: 1, connection: "a" }), Some("a"));
    assert_eq!(cell.clone().update(Park { epoch: 2, connection: "b" }), None);
    assert_eq!(cell.update(Park { epoch: 2, connection: "c" }), Some("c"));
}

#[test]
fn clones_of_a_shared_cell_share_its_value() {
    let cell: MutArc<Option<u32>> = MutArc::new(None);
    let other = cell.clone();
    assert!(cell.update(IsVacant));
    assert!(other.update(IsVacant));
    cell.update(Store { connection: 3 });
    assert!(!other.update(IsVacant));
    let full: MutArc<Option<u32>> = MutArc::new(Some(3));
    assert!(!full.clone().update(IsVacant));
}
