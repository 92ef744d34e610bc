//! Entity registry that tracks, in its type, which kinds of entities have
//! been added: an accessor exists only once its kind has been populated.

use super::entities::{Automation, Command, EntityId, Event, Projection, Query, Wireframe};
use std::marker::PhantomData;
use vstd::prelude::*;

verus! {

/// Marker type indicating no entities of this type have been added.
pub struct Empty;

/// Marker type indicating wireframes have been added to the registry.
pub struct HasWireframes;

/// Marker type indicating commands have been added to the registry.
pub struct HasCommands;

/// Marker type indicating events have been added to the registry.
pub struct HasEvents;

/// Marker type indicating projections have been added to the registry.
pub struct HasProjections;

/// Marker type indicating queries have been added to the registry.
pub struct HasQueries;

/// Marker type indicating automations have been added to the registry.
pub struct HasAutomations;

/// What a kind marker says of the entities of its kind.
pub trait KindMarker {
    /// Whether the marker says that no entity of its kind has been added.
    spec fn marks_none() -> bool;
}

impl KindMarker for Empty {
    open spec fn marks_none() -> bool {
        true
    }
}

impl KindMarker for HasWireframes {
    open spec fn marks_none() -> bool {
        false
    }
}

impl KindMarker for HasCommands {
    open spec fn marks_none() -> bool {
        false
    }
}

impl KindMarker for HasEvents {
    open spec fn marks_none() -> bool {
        false
    }
}

impl KindMarker for HasProjections {
    open spec fn marks_none() -> bool {
        false
    }
}

impl KindMarker for HasQueries {
    open spec fn marks_none() -> bool {
        false
    }
}

impl KindMarker for HasAutomations {
    open spec fn marks_none() -> bool {
        false
    }
}

/// Entity registry; the type parameters record, per entity kind, whether
/// entities of that kind have been added (`Empty` or `Has...`).
#[derive(Debug)]
pub struct EntityRegistry<W: KindMarker, C: KindMarker, E: KindMarker, P: KindMarker, Q: KindMarker, A: KindMarker> {
    wireframes: Vec<(EntityId, Wireframe)>,
    commands: Vec<(EntityId, Command)>,
    events: Vec<(EntityId, Event)>,
    projections: Vec<(EntityId, Projection)>,
    queries: Vec<(EntityId, Query)>,
    automations: Vec<(EntityId, Automation)>,
    _phantom: PhantomData<(W, C, E, P, Q, A)>,
}

impl<W: KindMarker, C: KindMarker, E: KindMarker, P: KindMarker, Q: KindMarker, A: KindMarker> Clone for EntityRegistry<W, C, E, P, Q, A> {
    /// A copy: each collection as long as this one's, each entry a clone of
    /// the entry in the same place.
    fn clone(&self) -> (r: Self)
        ensures
            r.wireframes_seq().len() == self.wireframes_seq().len(),
            forall|i: int| 0 <= i < self.wireframes_seq().len() ==> cloned(self.wireframes_seq()[i], #[trigger] r.wireframes_seq()[i]),
            r.commands_seq().len() == self.commands_seq().len(),
            forall|i: int| 0 <= i < self.commands_seq().len() ==> cloned(self.commands_seq()[i], #[trigger] r.commands_seq()[i]),
            r.events_seq().len() == self.events_seq().len(),
            forall|i: int| 0 <= i < self.events_seq().len() ==> cloned(self.events_seq()[i], #[trigger] r.events_seq()[i]),
            r.projections_seq().len() == self.projections_seq().len(),
            forall|i: int| 0 <= i < self.projections_seq().len() ==> cloned(self.projections_seq()[i], #[trigger] r.projections_seq()[i]),
            r.queries_seq().len() == self.queries_seq().len(),
            forall|i: int| 0 <= i < self.queries_seq().len() ==> cloned(self.queries_seq()[i], #[trigger] r.queries_seq()[i]),
            r.automations_seq().len() == self.automations_seq().len(),
            forall|i: int| 0 <= i < self.automations_seq().len() ==> cloned(self.automations_seq()[i], #[trigger] r.automations_seq()[i]),
    {
        proof {
            use_type_invariant(self);
        }
        EntityRegistry {
            wireframes: self.wireframes.clone(),
            commands: self.commands.clone(),
            events: self.events.clone(),
            projections: self.projections.clone(),
            queries: self.queries.clone(),
            automations: self.automations.clone(),
            _phantom: PhantomData,
        }
    }
}

impl<W: KindMarker, C: KindMarker, E: KindMarker, P: KindMarker, Q: KindMarker, A: KindMarker> EntityRegistry<W, C, E, P, Q, A> {

    /// A kind whose marker says that none has been added has none.
    #[verifier::type_invariant]
    spec fn marks_hold(self) -> bool {
        &&& W::marks_none() ==> self.wireframes@.len() == 0
        &&& C::marks_none() ==> self.commands@.len() == 0
        &&& E::marks_none() ==> self.events@.len() == 0
        &&& P::marks_none() ==> self.projections@.len() == 0
        &&& Q::marks_none() ==> self.queries@.len() == 0
        &&& A::marks_none() ==> self.automations@.len() == 0
    }

    /// The registered wireframes, in the order they were added.
    pub closed spec fn wireframes_seq(&self) -> Seq<(EntityId, Wireframe)> {
        self.wireframes@
    }

    /// The registered commands, in the order they were added.
    pub closed spec fn commands_seq(&self) -> Seq<(EntityId, Command)> {
        self.commands@
    }

    /// The registered events, in the order they were added.
    pub closed spec fn events_seq(&self) -> Seq<(EntityId, Event)> {
        self.events@
    }

    /// The registered projections, in the order they were added.
    pub closed spec fn projections_seq(&self) -> Seq<(EntityId, Projection)> {
        self.projections@
    }

    /// The registered queries, in the order they were added.
    pub closed spec fn queries_seq(&self) -> Seq<(EntityId, Query)> {
        self.queries@
    }

    /// The registered automations, in the order they were added.
    pub closed spec fn automations_seq(&self) -> Seq<(EntityId, Automation)> {
        self.automations@
    }

    /// The six collections are all empty.
    pub open spec fn is_empty_registry(&self) -> bool {

        &&& self.wireframes_seq().len() == 0
        &&& self.commands_seq().len() == 0
        &&& self.events_seq().len() == 0
        &&& self.projections_seq().len() == 0
        &&& self.queries_seq().len() == 0
        &&& self.automations_seq().len() == 0
    }
}

impl Default for EntityRegistry<Empty, Empty, Empty, Empty, Empty, Empty> {
    fn default() -> (r: Self)
        ensures
            r.is_empty_registry(),
    {
        Self::new()
    }
}

impl EntityRegistry<Empty, Empty, Empty, Empty, Empty, Empty> {
    /// Creates a new registry with no entities of any kind.
    pub fn new() -> (r: Self)
        ensures
            r.is_empty_registry(),
    {
        EntityRegistry {
            wireframes: Vec::new(),
            commands: Vec::new(),
            events: Vec::new(),
            projections: Vec::new(),
            queries: Vec::new(),
            automations: Vec::new(),
            _phantom: PhantomData,
        }
    }
}

impl<C: KindMarker, E: KindMarker, P: KindMarker, Q: KindMarker, A: KindMarker> EntityRegistry<Empty, C, E, P, Q, A> {
    /// Adds a wireframe, keyed by its own id; this marks wireframes as present and
    /// enables the `wireframes()` accessor. The other collections are unchanged.
    pub fn with_wireframe(self, wireframe: Wireframe) -> (r: EntityRegistry<HasWireframes, C, E, P, Q, A>)
        ensures
            r.wireframes_seq().len() == self.wireframes_seq().len() + 1,
            r.wireframes_seq().len() == 1,
            r.wireframes_seq().take(self.wireframes_seq().len() as int) == self.wireframes_seq(),
            r.wireframes_seq().last().0@ == wireframe.id@,
            r.wireframes_seq().last().1 == wireframe,
            r.commands_seq() == self.commands_seq(),
            r.events_seq() == self.events_seq(),
            r.projections_seq() == self.projections_seq(),
            r.queries_seq() == self.queries_seq(),
            r.automations_seq() == self.automations_seq(),
    {
        proof {
            use_type_invariant(&self);
        }
        let EntityRegistry { mut wireframes, commands, events, projections, queries, automations, _phantom } = self;
        let ghost before = wireframes@;
        let id = wireframe.id.clone();
        wireframes.push((id, wireframe));
        proof {
            assert(wireframes@.take(wireframes@.len() - 1) =~= before);
        }
        EntityRegistry { wireframes, commands, events, projections, queries, automations, _phantom: PhantomData }
    }
}

impl<C: KindMarker, E: KindMarker, P: KindMarker, Q: KindMarker, A: KindMarker> EntityRegistry<HasWireframes, C, E, P, Q, A> {
    /// All wireframes in the registry, in the order they were added. Available
    /// only once at least one has been added with `with_wireframe()`.
    pub fn wireframes(&self) -> (r: &[(EntityId, Wireframe)])
        ensures
            r@ == self.wireframes_seq(),
    {
        self.wireframes.as_slice()
    }
}

impl<W: KindMarker, E: KindMarker, P: KindMarker, Q: KindMarker, A: KindMarker> EntityRegistry<W, Empty, E, P, Q, A> {
    /// Adds a command, keyed by its own id; this marks commands as present and
    /// enables the `commands()` accessor. The other collections are unchanged.
    pub fn with_command(self, command: Command) -> (r: EntityRegistry<W, HasCommands, E, P, Q, A>)
        ensures
            r.commands_seq().len() == self.commands_seq().len() + 1,
            r.commands_seq().len() == 1,
            r.commands_seq().take(self.commands_seq().len() as int) == self.commands_seq(),
            r.commands_seq().last().0@ == command.id@,
            r.commands_seq().last().1 == command,
            r.wireframes_seq() == self.wireframes_seq(),
            r.events_seq() == self.events_seq(),
            r.projections_seq() == self.projections_seq(),
            r.queries_seq() == self.queries_seq(),
            r.automations_seq() == self.automations_seq(),
    {
        proof {
            use_type_invariant(&self);
        }
        let EntityRegistry { wireframes, mut commands, events, projections, queries, automations, _phantom } = self;
        let ghost before = commands@;
        let id = command.id.clone();
        commands.push((id, command));
        proof {
            assert(commands@.take(commands@.len() - 1) =~= before);
        }
        EntityRegistry { wireframes, commands, events, projections, queries, automations, _phantom: PhantomData }
    }
}

impl<W: KindMarker, E: KindMarker, P: KindMarker, Q: KindMarker, A: KindMarker> EntityRegistry<W, HasCommands, E, P, Q, A> {
    /// All commands in the registry, in the order they were added. Available
    /// only once at least one has been added with `with_command()`.
    pub fn commands(&self) -> (r: &[(EntityId, Command)])
        ensures
            r@ == self.commands_seq(),
    {
        self.commands.as_slice()
    }
}

impl<W: KindMarker, C: KindMarker, P: KindMarker, Q: KindMarker, A: KindMarker> EntityRegistry<W, C, Empty, P, Q, A> {
    /// Adds a event, keyed by its own id; this marks events as present and
    /// enables the `events()` accessor. The other collections are unchanged.
    pub fn with_event(self, event: Event) -> (r: EntityRegistry<W, C, HasEvents, P, Q, A>)
        ensures
            r.events_seq().len() == self.events_seq().len() + 1,
            r.events_seq().len() == 1,
            r.events_seq().take(self.events_seq().len() as int) == self.events_seq(),
            r.events_seq().last().0@ == event.id@,
            r.events_seq().last().1 == event,
            r.wireframes_seq() == self.wireframes_seq(),
            r.commands_seq() == self.commands_seq(),
            r.projections_seq() == self.projections_seq(),
            r.queries_seq() == self.queries_seq(),
            r.automations_seq() == self.automations_seq(),
    {
        proof {
            use_type_invariant(&self);
        }
        let EntityRegistry { wireframes, commands, mut events, projections, queries, automations, _phantom } = self;
        let ghost before = events@;
        let id = event.id.clone();
        events.push((id, event));
        proof {
            assert(events@.take(events@.len() - 1) =~= before);
        }
        EntityRegistry { wireframes, commands, events, projections, queries, automations, _phantom: PhantomData }
    }
}

impl<W: KindMarker, C: KindMarker, P: KindMarker, Q: KindMarker, A: KindMarker> EntityRegistry<W, C, HasEvents, P, Q, A> {
    /// All events in the registry, in the order they were added. Available
    /// only once at least one has been added with `with_event()`.
    pub fn events(&self) -> (r: &[(EntityId, Event)])
        ensures
            r@ == self.events_seq(),
    {
        self.events.as_slice()
    }
}

impl<W: KindMarker, C: KindMarker, E: KindMarker, Q: KindMarker, A: KindMarker> EntityRegistry<W, C, E, Empty, Q, A> {
    /// Adds a projection, keyed by its own id; this marks projections as present and
    /// enables the `projections()` accessor. The other collections are unchanged.
    pub fn with_projection(self, projection: Projection) -> (r: EntityRegistry<W, C, E, HasProjections, Q, A>)
        ensures
            r.projections_seq().len() == self.projections_seq().len() + 1,
            r.projections_seq().len() == 1,
            r.projections_seq().take(self.projections_seq().len() as int) == self.projections_seq(),
            r.projections_seq().last().0@ == projection.id@,
            r.projections_seq().last().1 == projection,
            r.wireframes_seq() == self.wireframes_seq(),
            r.commands_seq() == self.commands_seq(),
            r.events_seq() == self.events_seq(),
            r.queries_seq() == self.queries_seq(),
            r.automations_seq() == self.automations_seq(),
    {
        proof {
            use_type_invariant(&self);
        }
        let EntityRegistry { wireframes, commands, events, mut projections, queries, automations, _phantom } = self;
        let ghost before = projections@;
        let id = projection.id.clone();
        projections.push((id, projection));
        proof {
            assert(projections@.take(projections@.len() - 1) =~= before);
        }
        EntityRegistry { wireframes, commands, events, projections, queries, automations, _phantom: PhantomData }
    }
}

impl<W: KindMarker, C: KindMarker, E: KindMarker, Q: KindMarker, A: KindMarker> EntityRegistry<W, C, E, HasProjections, Q, A> {
    /// All projections in the registry, in the order they were added. Available
    /// only once at least one has been added with `with_projection()`.
    pub fn projections(&self) -> (r: &[(EntityId, Projection)])
        ensures
            r@ == self.projections_seq(),
    {
        self.projections.as_slice()
    }
}

impl<W: KindMarker, C: KindMarker, E: KindMarker, P: KindMarker, A: KindMarker> EntityRegistry<W, C, E, P, Empty, A> {
    /// Adds a query, keyed by its own id; this marks queries as present and
    /// enables the `queries()` accessor. The other collections are unchanged.
    pub fn with_query(self, query: Query) -> (r: EntityRegistry<W, C, E, P, HasQueries, A>)
        ensures
            r.queries_seq().len() == self.queries_seq().len() + 1,
            r.queries_seq().len() == 1,
            r.queries_seq().take(self.queries_seq().len() as int) == self.queries_seq(),
            r.queries_seq().last().0@ == query.id@,
            r.queries_seq().last().1 == query,
            r.wireframes_seq() == self.wireframes_seq(),
            r.commands_seq() == self.commands_seq(),
            r.events_seq() == self.events_seq(),
            r.projections_seq() == self.projections_seq(),
            r.automations_seq() == self.automations_seq(),
    {
        proof {
            use_type_invariant(&self);
        }
        let EntityRegistry { wireframes, commands, events, projections, mut queries, automations, _phantom } = self;
        let ghost before = queries@;
        let id = query.id.clone();
        queries.push((id, query));
        proof {
            assert(queries@.take(queries@.len() - 1) =~= before);
        }
        EntityRegistry { wireframes, commands, events, projections, queries, automations, _phantom: PhantomData }
    }
}

impl<W: KindMarker, C: KindMarker, E: KindMarker, P: KindMarker, A: KindMarker> EntityRegistry<W, C, E, P, HasQueries, A> {
    /// All queries in the registry, in the order they were added. Available
    /// only once at least one has been added with `with_query()`.
    pub fn queries(&self) -> (r: &[(EntityId, Query)])
        ensures
            r@ == self.queries_seq(),
    {
        self.queries.as_slice()
    }
}

impl<W: KindMarker, C: KindMarker, E: KindMarker, P: KindMarker, Q: KindMarker> EntityRegistry<W, C, E, P, Q, Empty> {
    /// Adds a automation, keyed by its own id; this marks automations as present and
    /// enables the `automations()` accessor. The other collections are unchanged.
    pub fn with_automation(self, automation: Automation) -> (r: EntityRegistry<W, C, E, P, Q, HasAutomations>)
        ensures
            r.automations_seq().len() == self.automations_seq().len() + 1,
            r.automations_seq().len() == 1,
            r.automations_seq().take(self.automations_seq().len() as int) == self.automations_seq(),
            r.automations_seq().last().0@ == automation.id@,
            r.automations_seq().last().1 == automation,
            r.wireframes_seq() == self.wireframes_seq(),
            r.commands_seq() == self.commands_seq(),
            r.events_seq() == self.events_seq(),
            r.projections_seq() == self.projections_seq(),
            r.queries_seq() == self.queries_seq(),
    {
        proof {
            use_type_invariant(&self);
        }
        let EntityRegistry { wireframes, commands, events, projections, queries, mut automations, _phantom } = self;
        let ghost before = automations@;
        let id = automation.id.clone();
        automations.push((id, automation));
        proof {
            assert(automations@.take(automations@.len() - 1) =~= before);
        }
        EntityRegistry { wireframes, commands, events, projections, queries, automations, _phantom: PhantomData }
    }
}

impl<W: KindMarker, C: KindMarker, E: KindMarker, P: KindMarker, Q: KindMarker> EntityRegistry<W, C, E, P, Q, HasAutomations> {
    /// All automations in the registry, in the order they were added. Available
    /// only once at least one has been added with `with_automation()`.
    pub fn automations(&self) -> (r: &[(EntityId, Automation)])
        ensures
            r@ == self.automations_seq(),
    {
        self.automations.as_slice()
    }
}

/// A registry whose contents are fixed arrays, sized by const parameters.
#[derive(Debug, Clone)]
pub struct StaticEntityRegistry<const N_WIREFRAMES: usize, const N_COMMANDS: usize, const N_EVENTS: usize> {
    wireframes: [(EntityId, Wireframe); N_WIREFRAMES],
    commands: [(EntityId, Command); N_COMMANDS],
    events: [(EntityId, Event); N_EVENTS],
}

impl<const N: usize, const M: usize, const L: usize> StaticEntityRegistry<N, M, L> {
    /// Builds a registry from its three arrays.
    pub fn from_arrays(
        wireframes: [(EntityId, Wireframe); N],
        commands: [(EntityId, Command); M],
        events: [(EntityId, Event); L],
    ) -> (r: Self)
        ensures
            r.wireframe_entries() == wireframes@,
            r.command_entries() == commands@,
            r.event_entries() == events@,
    {
        StaticEntityRegistry { wireframes, commands, events }
    }

    /// The wireframe entries.
    pub closed spec fn wireframe_entries(&self) -> Seq<(EntityId, Wireframe)> {
        self.wireframes@
    }

    /// The command entries.
    pub closed spec fn command_entries(&self) -> Seq<(EntityId, Command)> {
        self.commands@
    }

    /// The event entries.
    pub closed spec fn event_entries(&self) -> Seq<(EntityId, Event)> {
        self.events@
    }
}

/// A reference to an entity: its position in its collection.
#[derive(Debug)]
pub struct EntityRef<T> {
    index: usize,
    _phantom: PhantomData<T>,
}

impl<T> Clone for EntityRef<T> {
    fn clone(&self) -> (r: Self)
        ensures
            r.index() == self.index(),
    {
        EntityRef { index: self.index, _phantom: PhantomData }
    }
}

impl<T> EntityRef<T> {
    /// The position this reference points to.
    pub closed spec fn index(&self) -> usize {
        self.index
    }

    /// Creates a reference to the entity at position `index`.
    pub fn new(index: usize) -> (r: Self)
        ensures
            r.index() == index,
    {
        EntityRef { index, _phantom: PhantomData }
    }
}

/// Looking up an entity by reference.
pub trait EntityLookup<T> {
    /// The reference points inside the collection.
    spec fn holds(&self, reference: EntityRef<T>) -> bool;

    /// The entity the reference points to.
    spec fn entity_at(&self, reference: EntityRef<T>) -> T;

    /// The entity the reference points to; the reference must point inside
    /// the collection.
    fn get(&self, reference: EntityRef<T>) -> (r: &T)
        requires
            self.holds(reference),
        ensures
            *r == self.entity_at(reference),
    ;
}

impl<const N: usize, const M: usize, const L: usize> EntityLookup<Wireframe> for StaticEntityRegistry<N, M, L> {
    open spec fn holds(&self, reference: EntityRef<Wireframe>) -> bool {
        reference.index() < self.wireframe_entries().len()
    }

    open spec fn entity_at(&self, reference: EntityRef<Wireframe>) -> Wireframe {
        self.wireframe_entries()[reference.index() as int].1
    }

    fn get(&self, reference: EntityRef<Wireframe>) -> (r: &Wireframe) {
        &self.wireframes[reference.index].1
    }
}

impl<const N: usize, const M: usize, const L: usize> EntityLookup<Command> for StaticEntityRegistry<N, M, L> {
    open spec fn holds(&self, reference: EntityRef<Command>) -> bool {
        reference.index() < self.command_entries().len()
    }

    open spec fn entity_at(&self, reference: EntityRef<Command>) -> Command {
        self.command_entries()[reference.index() as int].1
    }

    fn get(&self, reference: EntityRef<Command>) -> (r: &Command) {
        &self.commands[reference.index].1
    }
}

impl<const N: usize, const M: usize, const L: usize> EntityLookup<Event> for StaticEntityRegistry<N, M, L> {
    open spec fn holds(&self, reference: EntityRef<Event>) -> bool {
        reference.index() < self.event_entries().len()
    }

    open spec fn entity_at(&self, reference: EntityRef<Event>) -> Event {
        self.event_entries()[reference.index() as int].1
    }

    fn get(&self, reference: EntityRef<Event>) -> (r: &Event) {
        &self.events[reference.index].1
    }
}

} // verus!
