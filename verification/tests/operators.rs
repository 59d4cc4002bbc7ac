use std::cell::{Cell, RefCell};
use std::rc::Rc;
use std::sync::{Arc, Mutex};

use refcount_grace::{
    ConnectableObservable, CoreObservable, Duration, Evolving, GraceState, MutArc, Observers, RefCount,
    RefCountGrace, Scheduler, Section, SharedCell, Subject, Subscribers, Subscription, Task,
    TaskState,
};

// ==================== A value shared on one thread ====================

struct LocalCell<T> {
    value: Rc<RefCell<T>>,
}

impl<T> LocalCell<T> {
    fn new(value: T) -> Self {
        LocalCell { value: Rc::new(RefCell::new(value)) }
    }
}

impl<T> Clone for LocalCell<T> {
    fn clone(&self) -> Self {
        LocalCell { value: self.value.clone() }
    }
}

impl<T: Evolving> SharedCell for LocalCell<T> {
    type Target = T;

    fn start(&self) -> T {
        unreachable!("only proofs speak of it")
    }

    fn update<X: Section<T>>(&self, section: X) -> X::Out {
        section.run(&mut *self.value.borrow_mut())
    }
}

// ==================== Lists of observers ====================

type Observer = Box<dyn FnMut(i32)>;

struct Entry {
    id: u64,
    observer: Option<Observer>,
}

#[derive(Clone)]
struct ObserverList {
    entries: Rc<RefCell<Vec<Entry>>>,
    next_id: Rc<Cell<u64>>,
}

impl ObserverList {
    fn new() -> Self {
        ObserverList { entries: Rc::new(RefCell::new(Vec::new())), next_id: Rc::new(Cell::new(0)) }
    }

    fn next(&self, item: i32) {
        let ids: Vec<u64> = self.entries.borrow().iter().map(|entry| entry.id).collect();
        for id in ids {
            let found = self.entries.borrow_mut().iter_mut().find(|e| e.id == id).and_then(|e| e.observer.take());
            if let Some(mut observer) = found {
                observer(item);
                if let Some(entry) = self.entries.borrow_mut().iter_mut().find(|e| e.id == id) {
                    entry.observer = Some(observer);
                }
            }
        }
    }

    fn complete(&self) {
        let drained = std::mem::take(&mut *self.entries.borrow_mut());
        drop(drained);
    }
}

impl Subscribers for ObserverList {
    fn subscriber_count(&self) -> usize {
        self.entries.borrow().len()
    }

    fn is_empty(&self) -> bool {
        self.entries.borrow().is_empty()
    }
}

impl Observers<Observer> for ObserverList {
    type Unsub = Membership;

    fn insert(&self, observer: Observer) -> Membership {
        let id = self.next_id.get();
        self.next_id.set(id + 1);
        self.entries.borrow_mut().push(Entry { id, observer: Some(observer) });
        Membership { list: self.clone(), id }
    }
}

struct Membership {
    list: ObserverList,
    id: u64,
}

impl Subscription for Membership {
    fn unsubscribe(self) {
        let id = self.id;
        self.list.entries.borrow_mut().retain(|entry| entry.id != id);
    }

    fn is_closed(&self) -> bool {
        !self.list.entries.borrow().iter().any(|entry| entry.id == self.id)
    }
}

// ==================== Sources ====================

/// A source that emits what it is told to, to everything that is connected.
#[derive(Clone)]
struct HotSource {
    list: ObserverList,
    connects: Rc<Cell<usize>>,
}

impl HotSource {
    fn new() -> Self {
        HotSource { list: ObserverList::new(), connects: Rc::new(Cell::new(0)) }
    }

    fn next(&self, item: i32) {
        self.list.next(item);
    }

    fn subscriber_count(&self) -> usize {
        self.list.subscriber_count()
    }
}

impl CoreObservable<Subject<ObserverList>> for HotSource {
    type Unsub = Membership;

    fn subscribe(self, subject: Subject<ObserverList>) -> Membership {
        self.connects.set(self.connects.get() + 1);
        let observers = subject.observers;
        self.list.insert(Box::new(move |item| observers.next(item)))
    }
}

/// A source that emits its items and completes while it is being connected.
#[derive(Clone)]
struct ColdSource {
    items: Vec<i32>,
    /// Runs after the items, before the source completes.
    at_end: Rc<RefCell<Option<Box<dyn FnOnce()>>>>,
    ended: Rc<Cell<usize>>,
}

impl ColdSource {
    fn new(items: Vec<i32>) -> Self {
        ColdSource { items, at_end: Rc::new(RefCell::new(None)), ended: Rc::new(Cell::new(0)) }
    }
}

struct ColdConnection {
    ended: Rc<Cell<usize>>,
}

impl Subscription for ColdConnection {
    fn unsubscribe(self) {
        self.ended.set(self.ended.get() + 1);
    }

    fn is_closed(&self) -> bool {
        true
    }
}

impl CoreObservable<Subject<ObserverList>> for ColdSource {
    type Unsub = ColdConnection;

    fn subscribe(self, subject: Subject<ObserverList>) -> ColdConnection {
        for item in &self.items {
            subject.observers.next(*item);
        }
        subject.observers.complete();
        let at_end = self.at_end.borrow_mut().take();
        if let Some(action) = at_end {
            action();
        }
        ColdConnection { ended: self.ended }
    }
}

// ==================== A scheduler with a clock of its own ====================

struct Timer {
    id: u64,
    due: u128,
    task: Box<dyn FnMut() -> TaskState>,
}

#[derive(Clone)]
struct TestScheduler {
    now: Rc<Cell<u128>>,
    timers: Rc<RefCell<Vec<Timer>>>,
    next_id: Rc<Cell<u64>>,
    /// Run tasks before `schedule` returns.
    inline: Rc<Cell<bool>>,
    cancelled: Rc<Cell<usize>>,
    finished: Rc<Cell<usize>>,
}

impl TestScheduler {
    fn init() -> Self {
        TestScheduler {
            now: Rc::new(Cell::new(0)),
            timers: Rc::new(RefCell::new(Vec::new())),
            next_id: Rc::new(Cell::new(0)),
            inline: Rc::new(Cell::new(false)),
            cancelled: Rc::new(Cell::new(0)),
            finished: Rc::new(Cell::new(0)),
        }
    }

    fn pending_count(&self) -> usize {
        self.timers.borrow().len()
    }

    fn run(&self, mut task: Box<dyn FnMut() -> TaskState>) {
        assert_eq!(task(), TaskState::Finished);
        self.finished.set(self.finished.get() + 1);
    }

    fn advance_by(&self, span: Duration) {
        self.now.set(self.now.get() + span.as_nanos());
        loop {
            let now = self.now.get();
            let index = self.timers.borrow().iter().position(|timer| timer.due <= now);
            match index {
                Some(i) => {
                    let timer = self.timers.borrow_mut().remove(i);
                    self.run(timer.task);
                }
                None => return,
            }
        }
    }
}

struct TimerHandle {
    scheduler: TestScheduler,
    id: u64,
}

impl Subscription for TimerHandle {
    fn unsubscribe(self) {
        let id = self.id;
        self.scheduler.cancelled.set(self.scheduler.cancelled.get() + 1);
        self.scheduler.timers.borrow_mut().retain(|timer| timer.id != id);
    }

    fn is_closed(&self) -> bool {
        !self.scheduler.timers.borrow().iter().any(|timer| timer.id == self.id)
    }
}

impl<T: Task + 'static> Scheduler<T> for TestScheduler {
    type TaskHandle = TimerHandle;

    fn schedule(&self, task: T, delay: Option<Duration>) -> TimerHandle {
        let id = self.next_id.get();
        self.next_id.set(id + 1);
        let mut task = task;
        let boxed: Box<dyn FnMut() -> TaskState> = Box::new(move || task.run());
        if self.inline.get() {
            self.run(boxed);
        } else {
            let wait = match delay {
                Some(span) => span.as_nanos(),
                None => 0,
            };
            let due = self.now.get() + wait;
            self.timers.borrow_mut().push(Timer { id, due, task: boxed });
        }
        TimerHandle { scheduler: self.clone(), id }
    }
}

// ==================== Putting operators together ====================

type SharedState<U> = LocalCell<GraceState<U, TimerHandle>>;

fn publish<S>(source: S) -> ConnectableObservable<S, ObserverList> {
    ConnectableObservable { source, subject: Subject { observers: ObserverList::new() } }
}

fn ref_count<S: CoreObservable<Subject<ObserverList>>>(
    source: S,
) -> RefCount<S, ObserverList, LocalCell<Option<S::Unsub>>> {
    RefCount { connectable: publish(source), connection: LocalCell::new(None) }
}

fn ref_count_grace<S: CoreObservable<Subject<ObserverList>>>(
    source: S,
    grace: Duration,
    scheduler: &TestScheduler,
) -> RefCountGrace<S, ObserverList, SharedState<S::Unsub>, TestScheduler> {
    RefCountGrace {
        connectable: publish(source),
        state: LocalCell::new(GraceState::new()),
        grace,
        scheduler: scheduler.clone(),
    }
}

fn grace_period() -> Duration {
    Duration::from_millis(50)
}

type Log = Rc<RefCell<Vec<i32>>>;

fn sink(log: &Log) -> Observer {
    let log = log.clone();
    Box::new(move |v| log.borrow_mut().push(v))
}

fn ignore() -> Observer {
    Box::new(|_| {})
}

// ==================== Without a grace period ====================

#[test]
fn test_ref_count_basic() {
    let results: Log = Log::default();

    let source = HotSource::new();
    let shared = ref_count(source.clone());

    let _ = shared.subscribe(sink(&results));
    source.next(42);

    assert_eq!(*results.borrow(), vec![42]);
}

#[test]
fn test_ref_count_multiple_subscribers() {
    let results1: Log = Log::default();
    let results2: Log = Log::default();

    let source = HotSource::new();
    let shared = ref_count(source.clone());

    let _sub1 = shared.clone().subscribe(sink(&results1));
    let _sub2 = shared.subscribe(sink(&results2));

    source.next(1);
    source.next(2);

    assert_eq!(*results1.borrow(), vec![1, 2]);
    assert_eq!(*results2.borrow(), vec![1, 2]);
}

#[test]
fn test_ref_count_unsubscribe() {
    let results: Rc<RefCell<Vec<String>>> = Rc::default();

    let source = HotSource::new();
    let shared = ref_count(source.clone());

    let r1 = results.clone();
    let observer_a: Observer = Box::new(move |v| r1.borrow_mut().push(format!("A:{v}")));
    let sub1 = shared.clone().subscribe(observer_a);

    source.next(1);

    let r2 = results.clone();
    let observer_b: Observer = Box::new(move |v| r2.borrow_mut().push(format!("B:{v}")));
    let sub2 = shared.subscribe(observer_b);

    source.next(2);
    sub1.unsubscribe();
    source.next(3);
    sub2.unsubscribe();

    let received = results.borrow();
    assert!(received.contains(&"A:1".to_string()));
    assert!(received.contains(&"A:2".to_string()));
    assert!(received.contains(&"B:2".to_string()));
    assert!(received.contains(&"B:3".to_string()));
    assert!(!received.contains(&"A:3".to_string()));
}

#[test]
fn ref_count_connects_once_and_disconnects_with_the_last_subscriber() {
    let source = HotSource::new();
    let shared = ref_count(source.clone());
    assert_eq!(source.subscriber_count(), 0);

    let sub_a = shared.clone().subscribe(ignore());
    let sub_b = shared.clone().subscribe(ignore());
    assert_eq!(source.connects.get(), 1);
    assert_eq!(source.subscriber_count(), 1);
    assert!(!sub_a.is_closed());

    sub_a.unsubscribe();
    assert_eq!(source.subscriber_count(), 1);
    sub_b.unsubscribe();
    assert_eq!(source.subscriber_count(), 0);

    let _sub_c = shared.subscribe(ignore());
    assert_eq!(source.connects.get(), 2);
    assert_eq!(source.subscriber_count(), 1);
}

#[test]
fn ref_count_subscription_closes_when_the_source_completes() {
    let results: Log = Log::default();
    let source = ColdSource::new(vec![1, 2]);
    let shared = ref_count(source.clone());

    let sub = shared.clone().subscribe(sink(&results));
    assert!(sub.is_closed());
    assert_eq!(*results.borrow(), vec![1, 2]);

    // The dead connection is kept until the subscriber leaves.
    let late = shared.clone().subscribe(sink(&results));
    assert_eq!(*results.borrow(), vec![1, 2]);
    assert!(!late.is_closed());
    late.unsubscribe();
    assert_eq!(source.ended.get(), 1);
    sub.unsubscribe();
    assert_eq!(source.ended.get(), 1);
}

// ==================== With a grace period ====================

#[test]
fn grace_holds_the_connection_open() {
    let clock = TestScheduler::init();

    let source = HotSource::new();
    let shared = ref_count_grace(source.clone(), grace_period(), &clock);

    let sub = shared.subscribe(ignore());
    assert_eq!(source.subscriber_count(), 1, "connected on first subscriber");

    sub.unsubscribe();
    assert_eq!(source.subscriber_count(), 1, "still connected during the grace window");

    clock.advance_by(Duration::from_millis(49));
    assert_eq!(source.subscriber_count(), 1, "the window has not expired yet");
}

#[test]
fn grace_expiry_disconnects_the_source() {
    let clock = TestScheduler::init();

    let source = HotSource::new();
    let shared = ref_count_grace(source.clone(), grace_period(), &clock);

    shared.subscribe(ignore()).unsubscribe();
    clock.advance_by(grace_period());

    assert_eq!(source.subscriber_count(), 0, "the window expired, the source is released");
}

#[test]
fn resubscribing_within_the_grace_window_cancels_the_reset() {
    let clock = TestScheduler::init();

    let source = HotSource::new();
    let shared = ref_count_grace(source.clone(), grace_period(), &clock);
    let (a, b): (Log, Log) = (Default::default(), Default::default());

    let sub_a = shared.clone().subscribe(sink(&a));
    source.next(1);
    sub_a.unsubscribe();

    // Halfway through the window a new subscriber arrives.
    clock.advance_by(Duration::from_millis(25));
    let _sub_b = shared.subscribe(sink(&b));

    // Past the point where the original reset would have fired.
    clock.advance_by(Duration::from_millis(50));

    assert_eq!(
        source.subscriber_count(),
        1,
        "the pending reset was cancelled, not merely delayed"
    );

    source.next(2);
    assert_eq!(*a.borrow(), vec![1]);
    assert_eq!(*b.borrow(), vec![2]);
}

#[test]
fn the_grace_window_restarts_after_a_resubscribe() {
    let clock = TestScheduler::init();

    let source = HotSource::new();
    let shared = ref_count_grace(source.clone(), grace_period(), &clock);

    shared.clone().subscribe(ignore()).unsubscribe();
    clock.advance_by(Duration::from_millis(25));

    let sub_b = shared.subscribe(ignore());
    sub_b.unsubscribe();

    // 25ms + 40ms is past the first window's deadline but not the second's.
    clock.advance_by(Duration::from_millis(40));
    assert_eq!(source.subscriber_count(), 1, "a full fresh window, not the remainder");

    clock.advance_by(Duration::from_millis(15));
    assert_eq!(source.subscriber_count(), 0);
}

#[test]
fn zero_grace_behaves_like_ref_count() {
    let clock = TestScheduler::init();

    let source = HotSource::new();
    let shared = ref_count_grace(source.clone(), Duration::new(0, 0), &clock);

    shared.subscribe(ignore()).unsubscribe();

    assert_eq!(source.subscriber_count(), 0, "disconnected synchronously");
    assert_eq!(clock.pending_count(), 0, "no task is scheduled for a zero window");
}

#[test]
fn only_the_last_subscriber_opens_the_window() {
    let clock = TestScheduler::init();

    let source = HotSource::new();
    let shared = ref_count_grace(source.clone(), grace_period(), &clock);

    let sub_a = shared.clone().subscribe(ignore());
    let sub_b = shared.subscribe(ignore());
    assert_eq!(source.subscriber_count(), 1, "one connection for two subscribers");

    sub_a.unsubscribe();
    assert_eq!(clock.pending_count(), 0, "subscribers remain, nothing is scheduled");
    clock.advance_by(Duration::from_millis(200));
    assert_eq!(source.subscriber_count(), 1);

    sub_b.unsubscribe();
    clock.advance_by(grace_period());
    assert_eq!(source.subscriber_count(), 0);
}

#[test]
fn ref_count_grace_with_uses_the_given_scheduler() {
    let other = TestScheduler::init();
    let clock = TestScheduler::init();

    let source = HotSource::new();
    let shared = ref_count_grace(source.clone(), grace_period(), &clock);

    shared.subscribe(ignore()).unsubscribe();
    assert_eq!(clock.pending_count(), 1, "the reset landed on the injected scheduler");
    assert_eq!(other.pending_count(), 0);
    assert_eq!(source.subscriber_count(), 1);

    clock.advance_by(grace_period());
    assert_eq!(source.subscriber_count(), 0);
}

#[test]
fn grace_works_in_a_shared_context() {
    let clock = TestScheduler::init();

    let source = HotSource::new();
    let state: MutArc<GraceState<Membership, TimerHandle>> = MutArc::new(GraceState::new());
    let shared = RefCountGrace {
        connectable: publish(source.clone()),
        state,
        grace: grace_period(),
        scheduler: clock.clone(),
    };

    let log = Arc::new(Mutex::new(Vec::new()));
    let log_a = log.clone();
    let observer_a: Observer = Box::new(move |v: i32| log_a.lock().unwrap().push(v));
    let sub_a = shared.clone().subscribe(observer_a);

    source.next(1);
    sub_a.unsubscribe();
    assert_eq!(source.subscriber_count(), 1, "held open across the Arc/Mutex state");

    let log_b = log.clone();
    let observer_b: Observer = Box::new(move |v: i32| log_b.lock().unwrap().push(v));
    let _sub_b = shared.subscribe(observer_b);
    clock.advance_by(Duration::from_millis(100));

    assert_eq!(source.subscriber_count(), 1, "the reset stood down");
    source.next(2);
    assert_eq!(*log.lock().unwrap(), vec![1, 2]);
}

#[test]
fn a_source_that_ends_during_the_window_is_still_released() {
    let clock = TestScheduler::init();

    let source = ColdSource::new(vec![1, 2]);
    let shared = ref_count_grace(source.clone(), grace_period(), &clock);
    let (a, b): (Log, Log) = (Default::default(), Default::default());

    // The source completes while it is being connected, so the connection is
    // already dead when the subscriber leaves; the reset must run without
    // tripping over it.
    shared.clone().subscribe(sink(&a)).unsubscribe();
    clock.advance_by(grace_period());
    assert_eq!(source.ended.get(), 1);

    let _ = shared.subscribe(sink(&b));
    assert_eq!(*a.borrow(), vec![1, 2]);
    assert_eq!(*b.borrow(), vec![1, 2]);
}

// ==================== Races ====================

#[test]
fn a_reset_that_was_not_cancelled_in_time_stands_down() {
    let clock = TestScheduler::init();
    let source = HotSource::new();
    let shared = ref_count_grace(source.clone(), grace_period(), &clock);

    shared.clone().subscribe(ignore()).unsubscribe();
    // The scheduler has already taken the reset off its list when the next
    // subscriber arrives.
    let mut timer = clock.timers.borrow_mut().remove(0);
    let sub = shared.clone().subscribe(ignore());
    assert_eq!(clock.cancelled.get(), 1);
    assert_eq!((timer.task)(), TaskState::Finished);
    assert_eq!(source.subscriber_count(), 1);
    assert_eq!(source.connects.get(), 1);

    // Not even once that subscriber has left too.
    sub.unsubscribe();
    assert_eq!((timer.task)(), TaskState::Finished);
    assert_eq!(source.subscriber_count(), 1);
    clock.advance_by(grace_period());
    assert_eq!(source.subscriber_count(), 0);
}

#[test]
fn a_scheduler_that_runs_the_reset_at_once_leaves_no_timer_behind() {
    let clock = TestScheduler::init();
    clock.inline.set(true);
    let source = HotSource::new();
    let shared = ref_count_grace(source.clone(), grace_period(), &clock);

    shared.clone().subscribe(ignore()).unsubscribe();
    assert_eq!(clock.finished.get(), 1);
    assert_eq!(source.subscriber_count(), 0);
    assert_eq!(clock.cancelled.get(), 1, "the stale timer was cancelled, not kept");

    let _sub = shared.subscribe(ignore());
    assert_eq!(source.connects.get(), 2);
    assert_eq!(clock.cancelled.get(), 1);
}

#[test]
fn a_connection_that_a_nested_subscriber_overtakes_is_ended() {
    let clock = TestScheduler::init();
    let source = ColdSource::new(vec![7]);
    let shared = ref_count_grace(source.clone(), grace_period(), &clock);
    let (a, b): (Log, Log) = (Default::default(), Default::default());

    let nested = shared.clone();
    let nested_log = b.clone();
    *source.at_end.borrow_mut() = Some(Box::new(move || {
        let _ = nested.subscribe(sink(&nested_log));
    }));
    let sub = shared.clone().subscribe(sink(&a));
    assert_eq!(*a.borrow(), vec![7]);
    assert_eq!(*b.borrow(), vec![7]);
    assert_eq!(source.ended.get(), 1, "the outer connection was redundant");

    sub.unsubscribe();
    clock.advance_by(grace_period());
    assert_eq!(source.ended.get(), 2, "the kept one ended with the window");
}

#[test]
fn a_second_window_supersedes_the_first() {
    let clock = TestScheduler::init();
    let source = ColdSource::new(vec![]);
    let shared = ref_count_grace(source.clone(), grace_period(), &clock);

    let sub_a = shared.clone().subscribe(ignore());
    let sub_b = shared.clone().subscribe(ignore());
    sub_b.unsubscribe();
    clock.advance_by(Duration::from_millis(30));
    sub_a.unsubscribe();
    assert_eq!(clock.pending_count(), 2);

    clock.advance_by(Duration::from_millis(30));
    assert_eq!(clock.finished.get(), 1);
    assert_eq!(source.ended.get(), 0, "the first window's reset stood down");
    clock.advance_by(Duration::from_millis(20));
    assert_eq!(source.ended.get(), 1);
}

#[test]
fn zero_grace_and_no_grace_agree_act_by_act() {
    let clock = TestScheduler::init();
    let plain_source = HotSource::new();
    let zero_source = HotSource::new();
    let plain = ref_count(plain_source.clone());
    let zero = ref_count_grace(zero_source.clone(), Duration::new(0, 0), &clock);

    let mut plain_subs = Vec::new();
    let mut zero_subs = Vec::new();
    // Positive: so many subscribers arrive. Negative: so many leave.
    let script: Vec<i32> = vec![1, 1, -1, 2, -3, 1, -1, 3, -2, 1, -2];
    for act in script {
        for _ in 0..act.max(0) {
            plain_subs.push(plain.clone().subscribe(ignore()));
            zero_subs.push(zero.clone().subscribe(ignore()));
        }
        for _ in 0..(-act).max(0) {
            plain_subs.remove(0).unsubscribe();
            zero_subs.remove(0).unsubscribe();
        }
        assert_eq!(plain_source.subscriber_count(), zero_source.subscriber_count());
        assert_eq!(plain_source.connects.get(), zero_source.connects.get());
        assert_eq!(zero_source.subscriber_count(), if zero_subs.is_empty() { 0 } else { 1 });
        assert_eq!(clock.pending_count(), 0);
    }
    assert_eq!(plain_source.connects.get(), 3);
}

#[test]
fn zero_grace_and_no_grace_deliver_the_same_items() {
    let clock = TestScheduler::init();
    let plain_source = HotSource::new();
    let zero_source = HotSource::new();
    let plain = ref_count(plain_source.clone());
    let zero = ref_count_grace(zero_source.clone(), Duration::new(0, 0), &clock);

    let plain_logs: Vec<Log> = (0..3).map(|_| Rc::new(RefCell::new(vec![]))).collect();
    let zero_logs: Vec<Log> = (0..3).map(|_| Rc::new(RefCell::new(vec![]))).collect();
    let mut plain_subs = Vec::new();
    let mut zero_subs = Vec::new();
    for (item, who) in [(1, 0), (2, 1), (3, 9), (4, 9), (5, 2), (6, 9)] {
        if who < 3 {
            plain_subs.push(plain.clone().subscribe(sink(&plain_logs[who])));
            zero_subs.push(zero.clone().subscribe(sink(&zero_logs[who])));
        } else {
            plain_subs.remove(0).unsubscribe();
            zero_subs.remove(0).unsubscribe();
        }
        plain_source.next(item);
        zero_source.next(item);
        for i in 0..3 {
            assert_eq!(*plain_logs[i].borrow(), *zero_logs[i].borrow());
        }
    }
    assert_eq!(*zero_logs[0].borrow(), vec![1, 2]);
    assert_eq!(*zero_logs[1].borrow(), vec![2, 3]);
    assert_eq!(*zero_logs[2].borrow(), vec![5]);

    let plain_cold = ref_count(ColdSource::new(vec![7, 8]));
    let zero_cold = ref_count_grace(ColdSource::new(vec![7, 8]), Duration::new(0, 0), &clock);
    let plain_log: Log = Rc::new(RefCell::new(vec![]));
    let zero_log: Log = Rc::new(RefCell::new(vec![]));
    plain_cold.subscribe(sink(&plain_log)).unsubscribe();
    zero_cold.subscribe(sink(&zero_log)).unsubscribe();
    assert_eq!(*plain_log.borrow(), vec![7, 8]);
    assert_eq!(*zero_log.borrow(), vec![7, 8]);
}

#[test]
fn no_connection_is_lost_over_many_windows() {
    let clock = TestScheduler::init();
    let source = HotSource::new();
    let shared = ref_count_grace(source.clone(), grace_period(), &clock);

    for round in 0..20 {
        let sub_a = shared.clone().subscribe(ignore());
        let sub_b = shared.clone().subscribe(ignore());
        assert_eq!(source.subscriber_count(), 1);
        sub_a.unsubscribe();
        sub_b.unsubscribe();
        assert_eq!(source.subscriber_count(), 1);
        clock.advance_by(Duration::from_millis(if round % 2 == 0 { 49 } else { 50 }));
        assert_eq!(source.subscriber_count(), if round % 2 == 0 { 1 } else { 0 });
    }
    assert_eq!(source.connects.get(), 10);
}
