//! A small generic CQRS / event-sourcing core: aggregates evolve only by
//! applying events, commands decide (at most) one event from the current
//! state, and an in-memory runtime keeps one append-only event stream per
//! aggregate id.

use std::collections::HashMap;
use vstd::prelude::*;

verus! {

broadcast use vstd::std_specs::hash::group_hash_axioms;

/// Domain state that evolves by applying events.
pub trait Aggregate: Sized + View {
    /// Identifier type for this aggregate.
    type Id: Copy + Eq + std::hash::Hash + std::fmt::Debug;

    /// The state of a blank aggregate with the given id.
    spec fn initial(id: Self::Id) -> Self::V;

    /// Creates a blank instance for a given id.
    fn new(id: Self::Id) -> (agg: Self)
        ensures
            agg@ == Self::initial(id),
    ;
}

/// A fact that happened, applied to an aggregate to evolve it.
pub trait Event<A: Aggregate>: Sized + Clone + std::fmt::Debug {
    /// The aggregate instance this event belongs to.
    spec fn target(&self) -> A::Id;

    /// Whether the event can be applied to the given state (no arithmetic
    /// overflow while applying it).
    spec fn applicable(&self, state: A::V) -> bool;

    /// The state after applying this event.
    spec fn transition(&self, state: A::V) -> A::V;

    /// Which aggregate instance does this event belong to?
    fn aggregate_id(&self) -> (id: A::Id)
        ensures
            id == self.target(),
    ;

    /// A clone of an event is the same event.
    proof fn lemma_clone_is_same(a: Self, b: Self)
        requires
            vstd::pervasive::cloned(a, b),
        ensures
            a == b,
    ;

    /// Applies this event to the aggregate state.
    fn apply(&self, state: &mut A)
        requires
            self.applicable(old(state)@),
        ensures
            final(state)@ == self.transition(old(state)@),
    ;
}

/// Why a command was refused.
#[derive(Debug)]
pub enum CommandError {
    Validation(&'static str),
    Conflict(&'static str),
    NotFound(&'static str),
}

/// An intention to change state. Produces (at most) one event.
pub trait Command<A: Aggregate, E: Event<A>>: Sized + std::fmt::Debug {
    /// The target aggregate id of this command (routing key).
    spec fn target(&self) -> A::Id;

    /// The decision taken on the current state (`None` when the aggregate
    /// has no events yet).
    spec fn decide(self, state: Option<A::V>) -> Result<E, CommandError>;

    /// The target aggregate id of this command.
    fn aggregate_id(&self) -> (id: A::Id)
        ensures
            id == self.target(),
    ;

    /// Business logic: take the current state (if any) and decide an event
    /// or an error.
    fn handle(self, state: Option<&A>) -> (res: Result<E, CommandError>)
        ensures
            res == self.decide(
                match state {
                    Some(s) => Some(s@),
                    None => None,
                },
            ),
    ;
}

/// The state reached by applying `events`, in order, to `start`.
pub open spec fn replay<A: Aggregate, E: Event<A>>(start: A::V, events: Seq<E>) -> A::V
    decreases events.len(),
{
    if events.len() == 0 {
        start
    } else {
        events.last().transition(replay::<A, E>(start, events.drop_last()))
    }
}

/// Whether every event of `events` can be applied in turn, starting from
/// `start`.
pub open spec fn replayable<A: Aggregate, E: Event<A>>(start: A::V, events: Seq<E>) -> bool
    decreases events.len(),
{
    if events.len() == 0 {
        true
    } else {
        &&& replayable::<A, E>(start, events.drop_last())
        &&& events.last().applicable(replay::<A, E>(start, events.drop_last()))
    }
}

/// The stream of an aggregate id in a store: empty when the id has none.
pub open spec fn stream_of<A: Aggregate, E: Event<A>>(
    streams: Map<A::Id, Seq<E>>,
    id: A::Id,
) -> Seq<E> {
    if streams.contains_key(id) {
        streams[id]
    } else {
        Seq::empty()
    }
}

/// The current state of an aggregate: its stream replayed over a blank
/// instance.
pub open spec fn current_state<A: Aggregate, E: Event<A>>(
    streams: Map<A::Id, Seq<E>>,
    id: A::Id,
) -> A::V {
    replay::<A, E>(A::initial(id), stream_of::<A, E>(streams, id))
}

/// What `load` returns for an id: nothing when no event was ever stored
/// for it, else its current state.
pub open spec fn loaded<A: Aggregate, E: Event<A>>(
    streams: Map<A::Id, Seq<E>>,
    id: A::Id,
) -> Option<A::V> {
    if streams.contains_key(id) {
        Some(current_state::<A, E>(streams, id))
    } else {
        None
    }
}

/// A well-formed store: every event sits in the stream of its own target,
/// and every stream replays without overflow.
pub open spec fn well_formed_streams<A: Aggregate, E: Event<A>>(
    streams: Map<A::Id, Seq<E>>,
) -> bool {
    forall|id: A::Id|
        #![trigger streams.contains_key(id)]
        streams.contains_key(id) ==> {
            &&& replayable::<A, E>(A::initial(id), streams[id])
            &&& forall|i: int|
                0 <= i < streams[id].len() ==> (#[trigger] streams[id][i]).target() == id
        }
}

/// The store after appending one event to the stream of its target.
pub open spec fn appended<A: Aggregate, E: Event<A>>(
    streams: Map<A::Id, Seq<E>>,
    ev: E,
) -> Map<A::Id, Seq<E>> {
    streams.insert(ev.target(), stream_of::<A, E>(streams, ev.target()).push(ev))
}

/// Very small in-memory event store and runtime.
#[verifier::reject_recursive_types(A)]
#[verifier::reject_recursive_types(E)]
pub struct Runtime<A: Aggregate, E: Event<A>> {
    streams: HashMap<A::Id, Vec<E>>,
}

impl<A: Aggregate, E: Event<A>> Runtime<A, E> {
    /// The append-only log of each aggregate id.
    pub closed spec fn streams(&self) -> Map<A::Id, Seq<E>> {
        self.streams@.map_values(|v: Vec<E>| v@)
    }

    /// The runtime's internal invariant.
    pub closed spec fn wf(&self) -> bool {
        well_formed_streams::<A, E>(self.streams())
    }

    /// An empty runtime.
    pub fn new() -> (rt: Self)
        ensures
            rt.wf(),
            rt.streams() == Map::<A::Id, Seq<E>>::empty(),
    {
        let rt = Runtime { streams: HashMap::new() };
        assert(rt.streams() =~= Map::<A::Id, Seq<E>>::empty());
        rt
    }

    /// Loads and rebuilds the current state from its events, if any.
    pub fn load(&self, id: &A::Id) -> (res: Option<A>)
        requires
            self.wf(),
            vstd::std_specs::hash::obeys_key_model::<A::Id>(),
        ensures
            match res {
                Some(a) => loaded::<A, E>(self.streams(), *id) == Some(a@),
                None => loaded::<A, E>(self.streams(), *id) is None,
            },
    {
        match self.streams.get(id) {
            None => None,
            Some(events) => {
                let ghost evs = events@;
                assert(self.streams().contains_key(*id));
                assert(self.streams()[*id] == evs);
                let mut state = A::new(*id);
                let n = events.len();
                let mut i: usize = 0;
                assert(evs.take(0) =~= Seq::<E>::empty());
                while i < n
                    invariant
                        n == evs.len(),
                        evs == events@,
                        0 <= i <= n,
                        replayable::<A, E>(A::initial(*id), evs),
                        state@ == replay::<A, E>(A::initial(*id), evs.take(i as int)),
                    decreases n - i,
                {
                    proof {
                        lemma_replayable_prefix::<A, E>(A::initial(*id), evs, i as int + 1);
                        assert(evs.take(i as int + 1).drop_last() =~= evs.take(i as int));
                    }
                    events[i].apply(&mut state);
                    i = i + 1;
                }
                assert(evs.take(n as int) =~= evs);
                Some(state)
            }
        }
    }

    /// Appends one event to the stream of its aggregate.
    fn append(&mut self, ev: E)
        requires
            vstd::std_specs::hash::obeys_key_model::<A::Id>(),
        ensures
            final(self).streams() == appended::<A, E>(old(self).streams(), ev),
    {
        let id = ev.aggregate_id();
        let mut stream = match self.streams.remove(&id) {
            Some(v) => v,
            None => Vec::new(),
        };
        stream.push(ev);
        self.streams.insert(id, stream);
        assert(self.streams() =~= appended::<A, E>(old(self).streams(), ev));
    }

    /// Executes a command: reads the current state, decides, appends the
    /// decided event to the stream of its aggregate and returns it. A
    /// refused command leaves the store unchanged.
    pub fn execute<C: Command<A, E>>(&mut self, cmd: C) -> (res: Result<E, CommandError>)
        requires
            old(self).wf(),
            vstd::std_specs::hash::obeys_key_model::<A::Id>(),
            forall|e: E|
                cmd.decide(loaded::<A, E>(old(self).streams(), cmd.target())) == Ok::<E, CommandError>(e)
                    ==> e.applicable(current_state::<A, E>(old(self).streams(), e.target())),
        ensures
            final(self).wf(),
            match cmd.decide(loaded::<A, E>(old(self).streams(), cmd.target())) {
                Ok(e) => {
                    &&& res == Ok::<E, CommandError>(e)
                    &&& final(self).streams() == appended::<A, E>(old(self).streams(), e)
                },
                Err(err) => {
                    &&& res == Err::<E, CommandError>(err)
                    &&& final(self).streams() == old(self).streams()
                },
            },
    {
        let id = cmd.aggregate_id();
        let current = self.load(&id);
        let decided = cmd.handle(current.as_ref());
        match decided {
            Err(err) => Err(err),
            Ok(event) => {
                let stored = event.clone();
                proof {
                    E::lemma_clone_is_same(event, stored);
                    lemma_append_keeps_well_formed::<A, E>(self.streams(), stored);
                }
                self.append(stored);
                Ok(event)
            }
        }
    }

    /// The latest state of an aggregate, rebuilt from its events.
    pub fn materialize(&self, id: &A::Id) -> (res: Option<A>)
        requires
            self.wf(),
            vstd::std_specs::hash::obeys_key_model::<A::Id>(),
        ensures
            match res {
                Some(a) => loaded::<A, E>(self.streams(), *id) == Some(a@),
                None => loaded::<A, E>(self.streams(), *id) is None,
            },
    {
        self.load(id)
    }

    /// The raw events of an aggregate, in the order they were appended.
    pub fn events(&self, id: &A::Id) -> (res: Option<&[E]>)
        requires
            vstd::std_specs::hash::obeys_key_model::<A::Id>(),
        ensures
            match res {
                Some(s) => self.streams().contains_key(*id) && s@ == self.streams()[*id],
                None => !self.streams().contains_key(*id),
            },
    {
        match self.streams.get(id) {
            Some(v) => Some(v.as_slice()),
            None => None,
        }
    }
}

/// The state a rebuild starts from: the snapshot, or a blank aggregate.
pub open spec fn rebuild_start<A: Aggregate>(id: A::Id, snapshot: Option<A>) -> A::V {
    match snapshot {
        Some(a) => a@,
        None => A::initial(id),
    }
}

/// Rebuilds an aggregate from its last snapshot (a blank one when there is
/// none) and the events stored after it, applied in order; says whether so
/// many events (more than 10) were replayed that a new snapshot is due.
pub fn rebuild<A: Aggregate, E: Event<A>>(id: A::Id, snapshot: Option<A>, events: &Vec<E>) -> (r: (A, bool))
    requires
        replayable::<A, E>(rebuild_start::<A>(id, snapshot), events@),
    ensures
        r.0@ == replay::<A, E>(rebuild_start::<A>(id, snapshot), events@),
        r.1 == (events@.len() > 10),
{
    let ghost start = rebuild_start::<A>(id, snapshot);
    let mut state = match snapshot {
        Some(a) => a,
        None => A::new(id),
    };
    let n = events.len();
    let mut i: usize = 0;
    assert(events@.take(0) =~= Seq::<E>::empty());
    while i < n
        invariant
            n == events@.len(),
            0 <= i <= n,
            replayable::<A, E>(start, events@),
            state@ == replay::<A, E>(start, events@.take(i as int)),
        decreases n - i,
    {
        proof {
            lemma_replayable_prefix::<A, E>(start, events@, i as int + 1);
            assert(events@.take(i as int + 1).drop_last() =~= events@.take(i as int));
        }
        events[i].apply(&mut state);
        i = i + 1;
    }
    assert(events@.take(n as int) =~= events@);
    (state, n > 10)
}

/// Replayability of a stream carries over to its prefixes.
pub proof fn lemma_replayable_prefix<A: Aggregate, E: Event<A>>(start: A::V, events: Seq<E>, k: int)
    requires
        replayable::<A, E>(start, events),
        0 <= k <= events.len(),
    ensures
        replayable::<A, E>(start, events.take(k)),
    decreases events.len() - k,
{
    if k < events.len() {
        lemma_replayable_prefix::<A, E>(start, events, k + 1);
        assert(events.take(k + 1).drop_last() =~= events.take(k));
    } else {
        assert(events.take(k) =~= events);
    }
}

/// Appending an event that is applicable to the current state of its
/// aggregate keeps the store well formed.
pub proof fn lemma_append_keeps_well_formed<A: Aggregate, E: Event<A>>(
    streams: Map<A::Id, Seq<E>>,
    ev: E,
)
    requires
        well_formed_streams::<A, E>(streams),
        ev.applicable(current_state::<A, E>(streams, ev.target())),
    ensures
        well_formed_streams::<A, E>(appended::<A, E>(streams, ev)),
{
    let t = ev.target();
    let s = stream_of::<A, E>(streams, t);
    let new_streams = appended::<A, E>(streams, ev);
    assert(s.push(ev).drop_last() =~= s);
    assert forall|id: A::Id| #[trigger] new_streams.contains_key(id) implies {
        &&& replayable::<A, E>(A::initial(id), new_streams[id])
        &&& forall|i: int|
            0 <= i < new_streams[id].len() ==> (#[trigger] new_streams[id][i]).target() == id
    } by {
        if id != t {
            assert(streams.contains_key(id));
        } else {
            if streams.contains_key(t) {
                assert(replayable::<A, E>(A::initial(t), s));
            } else {
                assert(replayable::<A, E>(A::initial(t), s));
            }
            assert(new_streams[id] == s.push(ev));
            assert(replayable::<A, E>(A::initial(id), s.push(ev)));
            assert forall|i: int| 0 <= i < new_streams[id].len() implies (#[trigger] new_streams[
                id
            ][i]).target() == id by {
                if i < s.len() {
                    assert(streams.contains_key(id));
                }
            }
        }
    }
}

/// Law: replaying one more event gives that event applied to the state
/// replayed so far.
pub proof fn law_replay_push<A: Aggregate, E: Event<A>>(start: A::V, events: Seq<E>, ev: E)
    ensures
        replay::<A, E>(start, events.push(ev)) == ev.transition(replay::<A, E>(start, events)),
{
    assert(events.push(ev).drop_last() =~= events);
}

/// Law: after an event is appended, loading its aggregate gives the event
/// applied to the state that was current before, and every other
/// aggregate loads exactly as before.
pub proof fn law_load_after_append<A: Aggregate, E: Event<A>>(
    streams: Map<A::Id, Seq<E>>,
    ev: E,
    other: A::Id,
)
    ensures
        loaded::<A, E>(appended::<A, E>(streams, ev), ev.target()) == Some(
            ev.transition(current_state::<A, E>(streams, ev.target())),
        ),
        other != ev.target() ==> loaded::<A, E>(appended::<A, E>(streams, ev), other) == loaded::<
            A,
            E,
        >(streams, other),
{
    law_replay_push::<A, E>(A::initial(ev.target()), stream_of::<A, E>(streams, ev.target()), ev);
}

/// Law: the log is append-only; appending never changes or removes an
/// event already stored, it only adds one at the end of one stream.
pub proof fn law_append_only<A: Aggregate, E: Event<A>>(
    streams: Map<A::Id, Seq<E>>,
    ev: E,
    id: A::Id,
    i: int,
)
    requires
        streams.contains_key(id),
        0 <= i < streams[id].len(),
    ensures
        appended::<A, E>(streams, ev).contains_key(id),
        appended::<A, E>(streams, ev)[id][i] == streams[id][i],
        appended::<A, E>(streams, ev)[id].len() == streams[id].len() + if id == ev.target() {
            1int
        } else {
            0int
        },
{
}

} // verus!
