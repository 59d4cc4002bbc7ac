use std::cell::RefCell;
use std::rc::Rc;

use refcount_grace::{
    ConnectableObservable, CoreObservable, Duration, GraceJournal, GraceState, GraceTask, MutArc,
    Observers, RefCount, RefCountGrace, RefCountJournal, Scheduler, Subject, Subscribers,
    Subscription, Task,
};

/// What the operators ask of the world, in order.
#[derive(Clone)]
struct World {
    calls: Rc<RefCell<Vec<&'static str>>>,
    members: Rc<RefCell<usize>>,
}

impl World {
    fn new() -> Self {
        World { calls: Rc::new(RefCell::new(Vec::new())), members: Rc::new(RefCell::new(0)) }
    }

    fn note(&self, call: &'static str) {
        self.calls.borrow_mut().push(call);
    }

    fn taken(&self) -> Vec<&'static str> {
        std::mem::take(&mut *self.calls.borrow_mut())
    }
}

impl Subscribers for World {
    fn subscriber_count(&self) -> usize {
        self.note("count");
        *self.members.borrow()
    }

    fn is_empty(&self) -> bool {
        self.note("ask");
        *self.members.borrow() == 0
    }
}

struct Member(World);

impl Subscription for Member {
    fn unsubscribe(self) {
        self.0.note("leave");
        *self.0.members.borrow_mut() -= 1;
    }

    fn is_closed(&self) -> bool {
        false
    }
}

impl Observers<()> for World {
    type Unsub = Member;

    fn insert(&self, _observer: ()) -> Member {
        self.note("join");
        *self.members.borrow_mut() += 1;
        Member(self.clone())
    }
}

struct Ending(World, &'static str);

impl Subscription for Ending {
    fn unsubscribe(self) {
        self.0.note(self.1);
    }

    fn is_closed(&self) -> bool {
        false
    }
}

#[derive(Clone)]
struct Source(World);

impl CoreObservable<Subject<World>> for Source {
    type Unsub = Ending;

    fn subscribe(self, _subject: Subject<World>) -> Ending {
        self.0.note("connect");
        Ending(self.0, "end")
    }
}

type State = MutArc<GraceState<Ending, Ending>>;

type Reset = GraceTask<World, State>;

#[derive(Clone)]
struct Later(World, Rc<RefCell<Vec<Reset>>>);

impl Scheduler<Reset> for Later {
    type TaskHandle = Ending;

    fn schedule(&self, task: Reset, _delay: Option<Duration>) -> Ending {
        self.0.note("schedule");
        self.1.borrow_mut().push(task);
        Ending(self.0.clone(), "cancel")
    }
}

fn publish(world: &World) -> ConnectableObservable<Source, World> {
    ConnectableObservable {
        source: Source(world.clone()),
        subject: Subject { observers: world.clone() },
    }
}

fn with_grace(world: &World, millis: u64) -> RefCountGrace<Source, World, State, Later> {
    RefCountGrace {
        connectable: publish(world),
        state: MutArc::new(GraceState::new()),
        grace: Duration::from_millis(millis),
        scheduler: Later(world.clone(), Rc::new(RefCell::new(Vec::new()))),
    }
}

#[test]
fn ref_count_joins_first_and_leaves_first() {
    let world = World::new();
    let shared = RefCount { connectable: publish(&world), connection: MutArc::new(None) };
    let one = shared.clone().subscribe(());
    assert_eq!(world.taken(), vec!["join", "count", "connect"]);
    let two = shared.clone().subscribe(());
    assert_eq!(world.taken(), vec!["join", "count"]);
    one.unsubscribe();
    assert_eq!(world.taken(), vec!["leave", "ask"]);
    two.unsubscribe();
    assert_eq!(world.taken(), vec!["leave", "ask", "end"]);
    let three = shared.subscribe(());
    assert_eq!(world.taken(), vec!["join", "count", "connect"]);
    three.unsubscribe();
    assert_eq!(world.taken(), vec!["leave", "ask", "end"]);
}

#[test]
fn ref_count_connects_once_for_many() {
    let world = World::new();
    let shared = RefCount { connectable: publish(&world), connection: MutArc::new(None) };
    let mut journal: RefCountJournal<Ending, Member> = RefCountJournal::new();
    let mut subscriptions = Vec::new();
    for _ in 0..5 {
        subscriptions.push(shared.clone().subscribe_under((), &mut journal));
    }
    assert_eq!(world.taken().iter().filter(|call| **call == "connect").count(), 1);
    for subscription in subscriptions {
        subscription.unsubscribe_under(&mut journal);
    }
    assert_eq!(world.taken().iter().filter(|call| **call == "end").count(), 1);
}

#[test]
fn grace_joins_before_it_connects_and_opens_a_window_last() {
    let world = World::new();
    let shared = with_grace(&world, 5);
    let resets = shared.scheduler.1.clone();
    let one = shared.clone().subscribe(());
    assert_eq!(world.taken(), vec!["join", "connect"]);
    let mut journal: GraceJournal<Ending, Ending, Member> = GraceJournal::new();
    let two = shared.clone().subscribe_under((), &mut journal);
    assert_eq!(world.taken(), vec!["join"]);
    one.unsubscribe();
    assert_eq!(world.taken(), vec!["leave", "ask"]);
    two.unsubscribe();
    assert_eq!(world.taken(), vec!["leave", "ask", "schedule"]);

    let three = shared.clone().subscribe(());
    assert_eq!(world.taken(), vec!["cancel", "join"]);
    three.unsubscribe();
    assert_eq!(world.taken(), vec!["leave", "ask", "schedule"]);

    let mut pending = resets.borrow_mut();
    pending[0].run();
    assert_eq!(world.taken(), Vec::<&'static str>::new());
    pending[1].run();
    assert_eq!(world.taken(), vec!["ask", "end"]);
    pending[1].run();
    assert_eq!(world.taken(), Vec::<&'static str>::new());
}

#[test]
fn a_zero_grace_period_schedules_nothing() {
    let world = World::new();
    let shared = with_grace(&world, 0);
    let one = shared.clone().subscribe(());
    assert_eq!(world.taken(), vec!["join", "connect"]);
    one.unsubscribe();
    assert_eq!(world.taken(), vec!["leave", "ask", "end"]);
    let two = shared.subscribe(());
    assert_eq!(world.taken(), vec!["join", "connect"]);
    two.unsubscribe();
    assert_eq!(world.taken(), vec!["leave", "ask", "end"]);
}
