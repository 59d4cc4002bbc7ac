//! Subjects, the sources that feed them, and the pair of both that waits to be
//! connected.

use crate::context::Subscription;
use vstd::prelude::*;

verus! {

/// A handle to the list of observers that a subject feeds.
pub trait Subscribers {
    /// How many observers the list holds.
    fn subscriber_count(&self) -> usize;

    /// Whether the list holds no observer.
    fn is_empty(&self) -> bool;
}

/// A list of observers that takes in an `Observer`.
pub trait Observers<Observer>: Subscribers {
    /// Takes one observer out of the list again.
    type Unsub: Subscription;

    /// Adds `observer` to the list.
    fn insert(&self, observer: Observer) -> Self::Unsub;
}

/// Something that can be observed.
pub trait CoreObservable<Observer>: Sized {
    /// Ends one observation.
    type Unsub: Subscription;

    /// Starts feeding `observer`, possibly all there is to feed before the
    /// call returns.
    fn subscribe(self, observer: Observer) -> Self::Unsub;
}

/// A subject: passes on what it is fed to the observers in its list.
pub struct Subject<P> {
    /// The list of observers, which all clones of the subject share.
    pub observers: P,
}

/// `count` is what the list of `subject` gave as its length.
pub open spec fn counted<P: Subscribers>(subject: Subject<P>, count: usize) -> bool {
    call_ensures(P::subscriber_count, (&subject.observers,), count)
}

/// `empty` is what the list of `subject` answered when asked whether it is
/// empty.
pub open spec fn found_empty<P: Subscribers>(subject: Subject<P>, empty: bool) -> bool {
    call_ensures(P::is_empty, (&subject.observers,), empty)
}

/// `observer` has been added to the list of `subject`, and `inner` takes it
/// out again.
pub open spec fn joined<Observer, P: Observers<Observer>>(
    subject: Subject<P>,
    observer: Observer,
    inner: P::Unsub,
) -> bool {
    call_ensures(P::insert, (&subject.observers, observer), inner)
}

impl<P: Clone> Clone for Subject<P> {
    /// The same subject once more.
    fn clone(&self) -> (subject: Self)
        ensures
            cloned(self.observers, subject.observers),
    {
        Subject { observers: self.observers.clone() }
    }
}

impl<P: Subscribers> Subject<P> {
    /// How many observers the subject feeds.
    pub fn subscriber_count(&self) -> (count: usize)
        ensures
            counted(*self, count),
    {
        self.observers.subscriber_count()
    }

    /// Whether the subject feeds no observer.
    pub fn is_empty(&self) -> (empty: bool)
        ensures
            found_empty(*self, empty),
    {
        self.observers.is_empty()
    }
}

impl<P> Subject<P> {
    /// Lets `observer` receive what the subject passes on.
    pub fn subscribe<Observer>(self, observer: Observer) -> (inner: P::Unsub) where
        P: Observers<Observer>,

        ensures
            joined(self, observer, inner),
    {
        self.observers.insert(observer)
    }
}

/// A source together with the subject that will share it.
pub struct ConnectableObservable<S, P> {
    /// The source, not subscribed to yet.
    pub source: S,
    /// The subject that the source will feed.
    pub subject: Subject<P>,
}

/// `connection` comes from subscribing the subject of `connectable` to its
/// source.
pub open spec fn connected<S: CoreObservable<Subject<P>>, P>(
    connectable: ConnectableObservable<S, P>,
    connection: S::Unsub,
) -> bool {
    call_ensures(S::subscribe, (connectable.source, connectable.subject), connection)
}

impl<S: Clone, P: Clone> Clone for ConnectableObservable<S, P> {
    /// The same source and subject once more.
    fn clone(&self) -> (connectable: Self)
        ensures
            cloned(self.source, connectable.source),
            cloned(self.subject.observers, connectable.subject.observers),
    {
        ConnectableObservable { source: self.source.clone(), subject: self.subject.clone() }
    }
}

impl<S, P: Clone> ConnectableObservable<S, P> {
    /// The subject, for an observer to join.
    pub fn fork(&self) -> (subject: Subject<P>)
        ensures
            cloned(self.subject.observers, subject.observers),
    {
        self.subject.clone()
    }
}

impl<S: CoreObservable<Subject<P>>, P> ConnectableObservable<S, P> {
    /// Subscribes the subject to the source.
    pub fn connect(self) -> (connection: S::Unsub)
        ensures
            connected(self, connection),
    {
        self.source.subscribe(self.subject)
    }
}

// ==================== What reaches the list and the source ====================
/// What a subject says of its observers is what its list says of them.
pub proof fn law_subject_speaks_for_its_list<P: Subscribers>(
    subject: Subject<P>,
    count: usize,
    empty: bool,
)
    ensures
        call_ensures(Subject::<P>::subscriber_count, (&subject,), count) ==> call_ensures(
            P::subscriber_count,
            (&subject.observers,),
            count,
        ),
        call_ensures(Subject::<P>::is_empty, (&subject,), empty) ==> call_ensures(
            P::is_empty,
            (&subject.observers,),
            empty,
        ),
{
}

/// An observer that subscribes to a subject is put into its list, and what takes
/// it out again is what the list has handed out.
pub proof fn law_subscriber_enters_the_list<Observer, P: Observers<Observer>>(
    subject: Subject<P>,
    observer: Observer,
    inner: P::Unsub,
)
    requires
        call_ensures(Subject::<P>::subscribe::<Observer>, (subject, observer), inner),
    ensures
        call_ensures(P::insert, (&subject.observers, observer), inner),
{
}

/// Connecting subscribes the very subject of the pair to its source, and the
/// connection is what the source has handed out.
pub proof fn law_connecting_feeds_the_subject<S: CoreObservable<Subject<P>>, P>(
    connectable: ConnectableObservable<S, P>,
    connection: S::Unsub,
)
    requires
        call_ensures(ConnectableObservable::<S, P>::connect, (connectable,), connection),
    ensures
        call_ensures(S::subscribe, (connectable.source, connectable.subject), connection),
{
}

/// A clone of a subject, of a pair, or the subject that a pair gives away has
/// clones of the very list and source.
pub proof fn law_clones_share_the_list<S: Clone, P: Clone>(
    connectable: ConnectableObservable<S, P>,
    copy: ConnectableObservable<S, P>,
    subject: Subject<P>,
)
    ensures
        call_ensures(<ConnectableObservable<S, P> as Clone>::clone, (&connectable,), copy) ==> {
            &&& cloned(connectable.source, copy.source)
            &&& cloned(connectable.subject.observers, copy.subject.observers)
        },
        call_ensures(ConnectableObservable::<S, P>::fork, (&connectable,), subject) ==> cloned(
            connectable.subject.observers,
            subject.observers,
        ),
        call_ensures(<Subject<P> as Clone>::clone, (&connectable.subject,), subject) ==> cloned(
            connectable.subject.observers,
            subject.observers,
        ),
{
}

} // verus!
